//! Binary floating point numbers as their IEEE 754 bit patterns.
//!
//! A number is the unsigned integer that holds its bits: a `u64` in double
//! precision, a `u32` in single precision, a `u16` in half precision. What a
//! finite number is worth is stated exactly, as a whole count of the smallest
//! positive double, of which `one()` make the number one. Every finite half,
//! single and double is such a count.

use vstd::arithmetic::div_mod::*;
use vstd::arithmetic::mul::*;
use vstd::arithmetic::power2::*;
use vstd::prelude::*;

verus! {

/// The bits of the quiet NaN that stands for every NaN.
pub const NAN_64: u64 = 0x7ff8_0000_0000_0000;

/// The bits of positive infinity.
pub const INFINITY_64: u64 = 0x7ff0_0000_0000_0000;

/// The bits of negative infinity.
pub const NEG_INFINITY_64: u64 = 0xfff0_0000_0000_0000;

/// The fraction field of a double.
pub open spec fn fraction_64(bits: u64) -> nat {
    (bits % 0x10_0000_0000_0000) as nat
}

/// The biased exponent field of a double.
pub open spec fn exponent_64(bits: u64) -> nat {
    ((bits / 0x10_0000_0000_0000) % 0x800) as nat
}

/// Whether the sign bit of a double is set.
pub open spec fn negative_64(bits: u64) -> bool {
    bits >= 0x8000_0000_0000_0000
}

pub open spec fn is_nan_64(bits: u64) -> bool {
    exponent_64(bits) == 0x7ff && fraction_64(bits) != 0
}

pub open spec fn is_infinite_64(bits: u64) -> bool {
    exponent_64(bits) == 0x7ff && fraction_64(bits) == 0
}

pub open spec fn is_finite_64(bits: u64) -> bool {
    exponent_64(bits) < 0x7ff
}

/// How many units make the number one: the smallest positive double is two to
/// the power of minus 1074.
pub open spec fn one() -> nat {
    pow2(1074)
}

/// The distance of a finite double from zero, in units.
pub open spec fn magnitude_64(bits: u64) -> nat {
    if exponent_64(bits) == 0 {
        fraction_64(bits)
    } else {
        (0x10_0000_0000_0000 + fraction_64(bits)) * pow2((exponent_64(bits) - 1) as nat)
    }
}

/// What a finite double is worth, in units.
pub open spec fn units_64(bits: u64) -> int {
    if negative_64(bits) {
        -(magnitude_64(bits) as int)
    } else {
        magnitude_64(bits) as int
    }
}

/// The greatest integer that is not above a finite double.
pub open spec fn floor_64(bits: u64) -> int {
    floor_units(units_64(bits))
}

/// Whether a finite double is an integer.
pub open spec fn is_integral_64(bits: u64) -> bool {
    integral_units(units_64(bits))
}

/// What a number is worth, whatever its precision; the two zeros are worth the
/// same.
pub enum Worth {
    Nan,
    NegInfinity,
    /// A number of units.
    Finite(int),
    Infinity,
}

/// What a double is worth.
pub open spec fn worth_64(bits: u64) -> Worth {
    if is_nan_64(bits) {
        Worth::Nan
    } else if is_infinite_64(bits) {
        if negative_64(bits) {
            Worth::NegInfinity
        } else {
            Worth::Infinity
        }
    } else {
        Worth::Finite(units_64(bits))
    }
}

/// What a single is worth.
pub open spec fn worth_32(bits: u32) -> Worth {
    if is_nan_32(bits) {
        Worth::Nan
    } else if is_infinite_32(bits) {
        if negative_32(bits) {
            Worth::NegInfinity
        } else {
            Worth::Infinity
        }
    } else {
        Worth::Finite(units_32(bits))
    }
}

/// What a half is worth.
pub open spec fn worth_16(bits: u16) -> Worth {
    if is_nan_16(bits) {
        Worth::Nan
    } else if is_infinite_16(bits) {
        if negative_16(bits) {
            Worth::NegInfinity
        } else {
            Worth::Infinity
        }
    } else {
        Worth::Finite(units_16(bits))
    }
}

/// The greatest integer that is not above a number of units.
pub open spec fn floor_units(units: int) -> int {
    units / (one() as int)
}

/// The least integer that is not below a number of units.
pub open spec fn ceil_units(units: int) -> int {
    -((-units) / (one() as int))
}

/// Whether a number of units is an integer.
pub open spec fn integral_units(units: int) -> bool {
    units % (one() as int) == 0
}

/// The integer of an `i128` that is nearest to `value`.
pub open spec fn saturated(value: int) -> int {
    if value < i128::MIN {
        i128::MIN as int
    } else if value > i128::MAX {
        i128::MAX as int
    } else {
        value
    }
}

pub fn is_nan(bits: u64) -> (nan: bool)
    ensures
        nan == is_nan_64(bits),
{
    (bits / 0x10_0000_0000_0000) % 0x800 == 0x7ff && bits % 0x10_0000_0000_0000 != 0
}

pub fn is_infinite(bits: u64) -> (infinite: bool)
    ensures
        infinite == is_infinite_64(bits),
{
    (bits / 0x10_0000_0000_0000) % 0x800 == 0x7ff && bits % 0x10_0000_0000_0000 == 0
}

pub fn is_sign_negative(bits: u64) -> (negative: bool)
    ensures
        negative == negative_64(bits),
{
    bits >= 0x8000_0000_0000_0000
}

/// Two to the power of `exponent`.
fn power_of_two(exponent: u64) -> (power: u128)
    requires
        exponent <= 126,
    ensures
        power == pow2(exponent as nat),
        0 < power <= 0x4000_0000_0000_0000_0000_0000_0000_0000,
{
    let mut power: u128 = 1;
    let mut i: u64 = 0;
    proof {
        lemma2_to64();
    }
    while i < exponent
        invariant
            i <= exponent <= 126,
            power == pow2(i as nat),
        decreases exponent - i,
    {
        proof {
            lemma_power_126();
            lemma_pow2_unfold((i + 1) as nat);
            if i + 1 < 126 {
                lemma_pow2_strictly_increases((i + 1) as nat, 126);
            }
        }
        power = power * 2;
        i = i + 1;
    }
    proof {
        lemma_power_126();
        lemma_pow2_pos(exponent as nat);
        if exponent < 126 {
            lemma_pow2_strictly_increases(exponent as nat, 126);
        }
    }
    power
}

proof fn lemma_power_126()
    ensures
        pow2(126) == 0x4000_0000_0000_0000_0000_0000_0000_0000,
        pow2(127) == 0x8000_0000_0000_0000_0000_0000_0000_0000,
{
    lemma2_to64();
    lemma_pow2_adds(64, 62);
    lemma_pow2_adds(64, 63);
    lemma2_to64_rest();
}

/// The integer part of a double.
#[derive(Clone, Copy, Debug, PartialEq, Eq)]
pub struct Whole {
    /// The floor, saturated at the bounds of an `i128`.
    pub floor: i128,
    /// Whether the double is an integer.
    pub integral: bool,
}

/// Dividing `m * 2^low` by `2^(low + k)` is dividing `m` by `2^k`.
proof fn lemma_shift_out(m: nat, low: nat, k: nat)
    ensures
        (m * pow2(low)) / pow2(low + k) == m / pow2(k),
        (m * pow2(low)) % pow2(low + k) == (m % pow2(k)) * pow2(low),
        pow2(low) > 0,
        pow2(k) > 0,
        pow2(low + k) > 0,
{
    lemma_pow2_pos(low);
    lemma_pow2_pos(k);
    lemma_pow2_pos(low + k);
    lemma_pow2_adds(low, k);
    lemma_div_multiples_vanish_quotient(pow2(low) as int, m as int, pow2(k) as int);
    lemma_truncate_middle(m as int, pow2(low) as int, pow2(k) as int);
    lemma_mul_is_commutative(pow2(low) as int, m as int);
    lemma_mul_is_commutative(pow2(low) as int, (m % pow2(k)) as int);
}

/// The floor of a number and of its negation, from its quotient and remainder.
proof fn lemma_signed_floor(magnitude: nat, d: nat)
    requires
        d > 0,
    ensures
        (-(magnitude as int)) / (d as int) == if magnitude % d == 0 {
            -((magnitude / d) as int)
        } else {
            -((magnitude / d) as int) - 1
        },
        (-(magnitude as int)) % (d as int) == 0 <==> magnitude % d == 0,
{
    let q = (magnitude / d) as int;
    let r = (magnitude % d) as int;
    lemma_fundamental_div_mod(magnitude as int, d as int);
    lemma_mul_is_commutative(d as int, q);
    if r == 0 {
        lemma_mul_unary_negation(q, d as int);
        lemma_fundamental_div_mod_converse(-(magnitude as int), d as int, -q, 0);
    } else {
        lemma_mul_is_distributive_sub_other_way(d as int, -q, 1);
        lemma_mul_unary_negation(q, d as int);
        lemma_fundamental_div_mod_converse(-(magnitude as int), d as int, -q - 1, d - r);
    }
}

/// The quotient and the remainder that `floor_saturating` works with.
proof fn lemma_whole_parts(bits: u64, mantissa: nat, e: nat)
    requires
        is_finite_64(bits),
        e == if exponent_64(bits) == 0 { 1 } else { exponent_64(bits) },
        mantissa == if exponent_64(bits) == 0 {
            fraction_64(bits)
        } else {
            0x10_0000_0000_0000 + fraction_64(bits)
        },
    ensures
        e < 1075 ==> {
            &&& magnitude_64(bits) / one() == mantissa / pow2((1075 - e) as nat)
            &&& (magnitude_64(bits) % one() == 0 <==> mantissa % pow2((1075 - e) as nat) == 0)
        },
        e >= 1075 ==> {
            &&& magnitude_64(bits) / one() == mantissa * pow2((e - 1075) as nat)
            &&& magnitude_64(bits) % one() == 0
        },
        one() > 0,
{
    lemma2_to64();
    lemma_pow2_pos(1074);
    let low = (e - 1) as nat;
    assert(magnitude_64(bits) == mantissa * pow2(low)) by {
        if exponent_64(bits) == 0 {
            lemma_mul_basics(mantissa as int);
        }
    }
    if e < 1075 {
        let k = (1075 - e) as nat;
        lemma_shift_out(mantissa, low, k);
        assert(low + k == 1074);
        let rest = mantissa % pow2(k);
        if rest != 0 {
            lemma_mul_strictly_positive(rest as int, pow2(low) as int);
        } else {
            lemma_mul_basics(pow2(low) as int);
        }
    } else {
        let up = (e - 1075) as nat;
        lemma_pow2_adds(up, 1074);
        assert(low == up + 1074);
        lemma_mul_is_associative(mantissa as int, pow2(up) as int, one() as int);
        lemma_fundamental_div_mod_converse(
            magnitude_64(bits) as int,
            one() as int,
            (mantissa * pow2(up)) as int,
            0,
        );
    }
}

/// The ceiling is the floor of an integer, and one above it otherwise.
pub proof fn lemma_ceil_of_floor(units: int)
    ensures
        ceil_units(units) == if integral_units(units) {
            floor_units(units)
        } else {
            floor_units(units) + 1
        },
{
    lemma_pow2_pos(1074);
    let d = one();
    if units >= 0 {
        lemma_signed_floor(units as nat, d);
    } else {
        lemma_signed_floor((-units) as nat, d);
    }
}

/// The floor of a finite double, saturated at the bounds of an `i128`, and
/// whether the double is an integer.
pub fn floor_saturating(bits: u64) -> (whole: Whole)
    requires
        is_finite_64(bits),
    ensures
        whole.floor == saturated(floor_64(bits)),
        whole.integral == is_integral_64(bits),
{
    let field: u64 = (bits / 0x10_0000_0000_0000) % 0x800;
    let fraction: u64 = bits % 0x10_0000_0000_0000;
    let negative = bits >= 0x8000_0000_0000_0000;
    let e: u64 = if field == 0 { 1 } else { field };
    let mantissa: u64 = if field == 0 { fraction } else { 0x10_0000_0000_0000 + fraction };
    proof {
        lemma2_to64();
        lemma2_to64_rest();
        lemma_whole_parts(bits, mantissa as nat, e as nat);
        lemma_signed_floor(magnitude_64(bits), one());
    }
    let quotient: u128;
    let exact: bool;
    if e >= 1150 {
        proof {
            let up = (e - 1075) as nat;
            lemma_power_126();
            if up > 75 {
                lemma_pow2_strictly_increases(75, up);
            }
            lemma_pow2_adds(52, 75);
            lemma_mul_inequality(0x10_0000_0000_0000, mantissa as int, pow2(75) as int);
            lemma_mul_inequality(pow2(75) as int, pow2(up) as int, mantissa as int);
            lemma_mul_is_commutative(mantissa as int, pow2(up) as int);
            lemma_mul_is_commutative(mantissa as int, pow2(75) as int);
            assert(magnitude_64(bits) / one() >= 0x8000_0000_0000_0000_0000_0000_0000_0000);
        }
        return Whole { floor: if negative { i128::MIN } else { i128::MAX }, integral: true };
    } else if e >= 1075 {
        proof {
            let up = (e - 1075) as nat;
            lemma_power_126();
            if up < 74 {
                lemma_pow2_strictly_increases(up, 74);
            }
            lemma_pow2_adds(53, 74);
            lemma_pow2_pos(up);
            lemma_mul_strict_inequality(mantissa as int, 0x20_0000_0000_0000, pow2(up) as int);
            lemma_mul_inequality(pow2(up) as int, pow2(74) as int, 0x20_0000_0000_0000);
            lemma_mul_is_commutative(0x20_0000_0000_0000, pow2(up) as int);
            lemma_mul_is_commutative(0x20_0000_0000_0000, pow2(74) as int);
        }
        quotient = mantissa as u128 * power_of_two(e - 1075);
        exact = true;
    } else if e >= 1022 {
        let divisor: u128 = power_of_two(1075 - e);
        proof {
            lemma_div_nonincreasing(mantissa as int, divisor as int);
        }
        quotient = mantissa as u128 / divisor;
        exact = mantissa as u128 % divisor == 0;
    } else {
        proof {
            let k = (1075 - e) as nat;
            if k > 54 {
                lemma_pow2_strictly_increases(54, k);
            }
            lemma_basic_div(mantissa as int, pow2(k) as int);
            lemma_small_mod(mantissa as nat, pow2(k));
        }
        quotient = 0;
        exact = mantissa == 0;
    }
    let floor: i128 = if !negative {
        quotient as i128
    } else if exact {
        -(quotient as i128)
    } else {
        -(quotient as i128) - 1
    };
    Whole { floor, integral: exact }
}

/// The absolute value of a finite integral double, as a number and a power of
/// two to multiply it by.
pub fn integral_parts(bits: u64) -> (parts: (u64, u64))
    requires
        is_finite_64(bits),
        is_integral_64(bits),
    ensures
        magnitude_64(bits) / one() == parts.0 * pow2(parts.1 as nat),
        parts.1 <= 971,
{
    let field: u64 = (bits / 0x10_0000_0000_0000) % 0x800;
    let fraction: u64 = bits % 0x10_0000_0000_0000;
    let e: u64 = if field == 0 { 1 } else { field };
    let mantissa: u64 = if field == 0 { fraction } else { 0x10_0000_0000_0000 + fraction };
    proof {
        lemma_whole_parts(bits, mantissa as nat, e as nat);
        lemma_pow2_pos(1074);
    }
    if e >= 1075 {
        (mantissa, e - 1075)
    } else if e >= 1022 {
        let divisor: u128 = power_of_two(1075 - e);
        proof {
            lemma2_to64();
            lemma_div_nonincreasing(mantissa as int, divisor as int);
            lemma_mul_basics((mantissa as nat / pow2((1075 - e) as nat)) as int);
        }
        ((mantissa as u128 / divisor) as u64, 0)
    } else {
        proof {
            let k = (1075 - e) as nat;
            lemma2_to64();
            lemma2_to64_rest();
            if k > 54 {
                lemma_pow2_strictly_increases(54, k);
            }
            lemma_basic_div(mantissa as int, pow2(k) as int);
        }
        (0, 0)
    }
}

/// The fraction field of a single.
pub open spec fn fraction_32(bits: u32) -> nat {
    (bits % 0x80_0000) as nat
}

/// The biased exponent field of a single.
pub open spec fn exponent_32(bits: u32) -> nat {
    ((bits / 0x80_0000) % 0x100) as nat
}

/// Whether the sign bit of a single is set.
pub open spec fn negative_32(bits: u32) -> bool {
    bits >= 0x8000_0000
}

pub open spec fn is_nan_32(bits: u32) -> bool {
    exponent_32(bits) == 0xff && fraction_32(bits) != 0
}

pub open spec fn is_infinite_32(bits: u32) -> bool {
    exponent_32(bits) == 0xff && fraction_32(bits) == 0
}

pub open spec fn is_finite_32(bits: u32) -> bool {
    exponent_32(bits) < 0xff
}

/// The distance of a finite single from zero, counted in smallest positive
/// singles.
pub open spec fn magnitude_32(bits: u32) -> nat {
    if exponent_32(bits) == 0 {
        fraction_32(bits)
    } else {
        (0x80_0000 + fraction_32(bits)) * pow2((exponent_32(bits) - 1) as nat)
    }
}

/// What a finite single is worth, in units: the smallest positive single is
/// two to the power of minus 149.
pub open spec fn units_32(bits: u32) -> int {
    if negative_32(bits) {
        -((magnitude_32(bits) * pow2(925)) as int)
    } else {
        (magnitude_32(bits) * pow2(925)) as int
    }
}

/// The fraction field of a half.
pub open spec fn fraction_16(bits: u16) -> nat {
    (bits % 0x400) as nat
}

/// The biased exponent field of a half.
pub open spec fn exponent_16(bits: u16) -> nat {
    ((bits / 0x400) % 0x20) as nat
}

/// Whether the sign bit of a half is set.
pub open spec fn negative_16(bits: u16) -> bool {
    bits >= 0x8000
}

pub open spec fn is_nan_16(bits: u16) -> bool {
    exponent_16(bits) == 0x1f && fraction_16(bits) != 0
}

pub open spec fn is_infinite_16(bits: u16) -> bool {
    exponent_16(bits) == 0x1f && fraction_16(bits) == 0
}

/// The distance of a finite half from zero, counted in smallest positive
/// halves.
pub open spec fn magnitude_16(bits: u16) -> nat {
    if exponent_16(bits) == 0 {
        fraction_16(bits)
    } else {
        (0x400 + fraction_16(bits)) * pow2((exponent_16(bits) - 1) as nat)
    }
}

/// What a finite half is worth, in units: the smallest positive half is two
/// to the power of minus 24.
pub open spec fn units_16(bits: u16) -> int {
    if negative_16(bits) {
        -((magnitude_16(bits) * pow2(1050)) as int)
    } else {
        (magnitude_16(bits) * pow2(1050)) as int
    }
}

/// The double of `mantissa * 2^shift` units.
fn double_of(negative: bool, mantissa: u64, shift: u64) -> (bits: u64)
    requires
        0 < mantissa < 0x20_0000_0000_0000,
        52 <= shift <= 2000,
    ensures
        is_finite_64(bits),
        negative_64(bits) == negative,
        magnitude_64(bits) == mantissa * pow2(shift as nat),
{
    let mut m: u64 = mantissa;
    let mut s: u64 = shift;
    proof {
        lemma2_to64();
    }
    while m < 0x10_0000_0000_0000
        invariant
            0 < m < 0x20_0000_0000_0000,
            s <= shift <= 2000,
            shift >= 52,
            m * pow2(s as nat) == mantissa * pow2(shift as nat),
            m >= pow2((shift - s) as nat),
        decreases 0x20_0000_0000_0000 - m,
    {
        proof {
            lemma2_to64();
            lemma2_to64_rest();
            if shift - s > 52 {
                lemma_pow2_strictly_increases(52, (shift - s) as nat);
            }
            assert(s >= 1);
            lemma_pow2_unfold(s as nat);
            lemma_pow2_unfold((shift - s + 1) as nat);
            lemma_mul_is_associative(m as int, 2, pow2((s - 1) as nat) as int);
        }
        m = m * 2;
        s = s - 1;
    }
    let high: u64 = if negative { 0x8000_0000_0000_0000 } else { 0 };
    let bits: u64 = high + (s + 1) * 0x10_0000_0000_0000 + (m - 0x10_0000_0000_0000);
    assert(exponent_64(bits) == s + 1);
    assert(fraction_64(bits) == m - 0x10_0000_0000_0000);
    bits
}

/// The double of the same worth as a single.
pub fn widen_32(single: u32) -> (bits: u64)
    ensures
        negative_64(bits) == negative_32(single),
        worth_64(bits) == worth_32(single),
{
    let field: u32 = (single / 0x80_0000) % 0x100;
    let fraction: u32 = single % 0x80_0000;
    let negative = single >= 0x8000_0000;
    let high: u64 = if negative { 0x8000_0000_0000_0000 } else { 0 };
    if field == 0xff {
        if fraction == 0 {
            return high + INFINITY_64;
        }
        return high + NAN_64;
    }
    if field == 0 && fraction == 0 {
        proof {
            lemma_mul_basics(pow2(925) as int);
        }
        return high;
    }
    let mantissa: u64 = if field == 0 { fraction as u64 } else { 0x80_0000 + fraction as u64 };
    let e: u64 = if field == 0 { 1 } else { field as u64 };
    proof {
        lemma2_to64();
        lemma_mul_basics(mantissa as int);
        lemma_pow2_adds((e - 1) as nat, 925);
        lemma_mul_is_associative(mantissa as int, pow2((e - 1) as nat) as int, pow2(925) as int);
        assert(e - 1 + 925 == e + 924);
    }
    double_of(negative, mantissa, e + 924)
}

/// The double of the same worth as a half.
pub fn widen_16(half: u16) -> (bits: u64)
    ensures
        negative_64(bits) == negative_16(half),
        worth_64(bits) == worth_16(half),
{
    let field: u16 = (half / 0x400) % 0x20;
    let fraction: u16 = half % 0x400;
    let negative = half >= 0x8000;
    let high: u64 = if negative { 0x8000_0000_0000_0000 } else { 0 };
    if field == 0x1f {
        if fraction == 0 {
            return high + INFINITY_64;
        }
        return high + NAN_64;
    }
    if field == 0 && fraction == 0 {
        proof {
            lemma_mul_basics(pow2(1050) as int);
        }
        return high;
    }
    let mantissa: u64 = if field == 0 { fraction as u64 } else { 0x400 + fraction as u64 };
    let e: u64 = if field == 0 { 1 } else { field as u64 };
    proof {
        lemma2_to64();
        lemma_mul_basics(mantissa as int);
        lemma_pow2_adds((e - 1) as nat, 1050);
        lemma_mul_is_associative(mantissa as int, pow2((e - 1) as nat) as int, pow2(1050) as int);
        assert(e - 1 + 1050 == e + 1049);
    }
    double_of(negative, mantissa, e + 1049)
}

/// The integer nearest to `n / d`, the even one of two that are as near.
pub open spec fn round_half_even(n: nat, d: nat) -> nat {
    if 2 * (n % d) < d || (2 * (n % d) == d && (n / d) % 2 == 0) {
        n / d
    } else {
        n / d + 1
    }
}

/// How many powers of two the spacing of the singles around a finite double
/// is above the smallest positive single.
pub open spec fn spacing_32(bits: u64) -> nat {
    if exponent_64(bits) < 897 {
        0
    } else {
        (exponent_64(bits) - 897) as nat
    }
}

/// The bits, without the sign, of the single nearest to a finite double.
///
/// Consecutive bit patterns are consecutive singles, so a mantissa that rounds
/// up into the next power of two carries into the exponent field by itself,
/// and one that rounds up past the greatest single gives infinity.
pub open spec fn narrowed(bits: u64) -> nat {
    let spacing = spacing_32(bits);
    if spacing >= 254 {
        0x7f80_0000
    } else {
        spacing * 0x80_0000 + round_half_even(magnitude_64(bits), pow2(925 + spacing))
    }
}

/// The single nearest to a double: a NaN stays one, infinity stays infinite,
/// and the sign is kept.
pub open spec fn single_of(bits: u64) -> u32 {
    let high: nat = if negative_64(bits) { 0x8000_0000 } else { 0 };
    if is_nan_64(bits) {
        (high + 0x7fc0_0000) as u32
    } else if is_infinite_64(bits) {
        (high + 0x7f80_0000) as u32
    } else {
        (high + narrowed(bits)) as u32
    }
}

/// Narrowing makes a NaN of a NaN and of nothing else.
pub proof fn lemma_single_of_nan(bits: u64)
    ensures
        is_nan_32(single_of(bits)) == is_nan_64(bits),
{
    if is_finite_64(bits) {
        lemma_narrow_bound(bits);
    }
}

/// Rounding is not affected by a power of two that both sides share.
proof fn lemma_round_shift_out(m: nat, low: nat, k: nat)
    ensures
        round_half_even(m * pow2(low), pow2(low + k)) == round_half_even(m, pow2(k)),
{
    lemma_shift_out(m, low, k);
    lemma_pow2_adds(low, k);
    let r = (m % pow2(k)) as int;
    let p = pow2(low) as int;
    let d = pow2(k) as int;
    assert(2 * (r * p) < p * d <==> 2 * r < d) by (nonlinear_arith)
        requires
            p > 0,
    ;
    assert(2 * (r * p) == p * d <==> 2 * r == d) by (nonlinear_arith)
        requires
            p > 0,
    ;
}

/// `n / d`, rounded to the nearest integer, ties to even.
fn round_divide(n: u64, d: u64) -> (rounded: u64)
    requires
        n < 0x20_0000_0000_0000,
        0 < d <= 0x1000_0000_0000_0000,
    ensures
        rounded == round_half_even(n as nat, d as nat),
        rounded <= n / d + 1,
{
    proof {
        lemma_div_nonincreasing(n as int, d as int);
        lemma_mod_bound(n as int, d as int);
    }
    let q: u64 = n / d;
    let r: u64 = n % d;
    if 2 * r < d || (2 * r == d && q % 2 == 0) {
        q
    } else {
        q + 1
    }
}

/// The bits, without the sign, of the single nearest to a finite double.
fn narrow_magnitude(bits: u64) -> (magnitude: u32)
    requires
        is_finite_64(bits),
    ensures
        magnitude == narrowed(bits),
        magnitude <= 0x7f80_0000,
{
    let field: u64 = (bits / 0x10_0000_0000_0000) % 0x800;
    let fraction: u64 = bits % 0x10_0000_0000_0000;
    if field >= 1151 {
        return 0x7f80_0000;
    }
    let e: u64 = if field == 0 { 1 } else { field };
    let mantissa: u64 = if field == 0 { fraction } else { 0x10_0000_0000_0000 + fraction };
    let k: u64 = if e < 897 { 926 - e } else { 29 };
    proof {
        lemma_magnitude_64(bits, mantissa as nat, e as nat);
        lemma_round_shift_out(mantissa as nat, (e - 1) as nat, k as nat);
        assert(925 + spacing_32(bits) == (e - 1) + k);
    }
    let rounded: u64 = if k <= 60 {
        let d: u64 = power_of_two_64(k);
        proof {
            lemma_narrow_quotient(mantissa as nat, k as nat);
        }
        round_divide(mantissa, d)
    } else {
        proof {
            lemma_narrow_vanishes(mantissa as nat, k as nat);
        }
        0
    };
    let spacing: u64 = if e < 897 { 0 } else { e - 897 };
    (spacing * 0x80_0000 + rounded) as u32
}

/// The quotient that rounds to the mantissa of a single is small enough.
proof fn lemma_narrow_quotient(mantissa: nat, k: nat)
    requires
        mantissa < 0x20_0000_0000_0000,
        29 <= k,
    ensures
        mantissa / pow2(k) < 0x100_0000,
        k > 29 ==> mantissa / pow2(k) < 0x80_0000,
        round_half_even(mantissa, pow2(k)) <= 0x100_0000,
{
    lemma2_to64();
    let least: nat = if k == 29 { 29 } else { 30 };
    if k > least {
        lemma_pow2_strictly_increases(least, k);
    }
    lemma_div_is_ordered_by_denominator(mantissa as int, pow2(least) as int, pow2(k) as int);
}

/// What is below half the smallest positive single rounds to zero.
proof fn lemma_narrow_vanishes(mantissa: nat, k: nat)
    requires
        mantissa < 0x20_0000_0000_0000,
        60 < k,
    ensures
        round_half_even(mantissa, pow2(k)) == 0,
{
    lemma2_to64_rest();
    if k > 61 {
        lemma_pow2_strictly_increases(61, k);
    }
    lemma_basic_div(mantissa as int, pow2(k) as int);
    lemma_small_mod(mantissa, pow2(k));
}

/// The single nearest to a double, ties to even; a double past the greatest
/// single becomes infinite, a NaN stays one, and the sign is kept.
pub fn narrow(bits: u64) -> (single: u32)
    ensures
        single == single_of(bits),
        is_nan_32(single) == is_nan_64(bits),
        negative_32(single) == negative_64(bits),
{
    let high: u32 = if is_sign_negative(bits) { 0x8000_0000 } else { 0 };
    if is_nan(bits) {
        return high + 0x7fc0_0000;
    }
    if is_infinite(bits) {
        return high + 0x7f80_0000;
    }
    high + narrow_magnitude(bits)
}

/// Two to the power of `exponent`.
fn power_of_two_64(exponent: u64) -> (power: u64)
    requires
        exponent <= 60,
    ensures
        power == pow2(exponent as nat),
        0 < power <= 0x1000_0000_0000_0000,
{
    proof {
        lemma2_to64_rest();
        lemma_pow2_pos(exponent as nat);
        if exponent < 60 {
            lemma_pow2_strictly_increases(exponent as nat, 60);
        }
    }
    power_of_two(exponent) as u64
}

/// Whether some single is worth exactly what a finite double is worth.
pub open spec fn fits_32(bits: u64) -> bool {
    exists|single: u32| is_finite_32(single) && #[trigger] units_32(single) == units_64(bits)
}

/// Whether a double keeps its worth in single precision: NaN stays a NaN,
/// infinity stays infinite, and a finite double has to be worth what some
/// single is worth.
pub open spec fn is_exact(bits: u64) -> bool {
    is_nan_64(bits) || is_infinite_64(bits) || (is_finite_64(bits) && fits_32(bits))
}

/// The mantissa and the exponent that a finite double is worth.
proof fn lemma_magnitude_64(bits: u64, mantissa: nat, e: nat)
    requires
        e == if exponent_64(bits) == 0 { 1 } else { exponent_64(bits) },
        mantissa == if exponent_64(bits) == 0 {
            fraction_64(bits)
        } else {
            0x10_0000_0000_0000 + fraction_64(bits)
        },
    ensures
        magnitude_64(bits) == mantissa * pow2((e - 1) as nat),
{
    lemma2_to64();
    lemma_mul_basics(mantissa as int);
}

/// A double whose mantissa is a multiple of the spacing of the singles is
/// worth what the single it narrows to is worth.
proof fn lemma_narrowed_worth(bits: u64, single: u32, mantissa: nat, e: nat, k: nat)
    requires
        is_finite_64(bits),
        exponent_64(bits) < 1151,
        single % 0x8000_0000 == narrowed(bits),
        negative_32(single) == negative_64(bits),
        e == if exponent_64(bits) == 0 { 1 } else { exponent_64(bits) },
        mantissa == if exponent_64(bits) == 0 {
            fraction_64(bits)
        } else {
            0x10_0000_0000_0000 + fraction_64(bits)
        },
        k == if e < 897 { (926 - e) as nat } else { 29 },
        mantissa % pow2(k) == 0,
    ensures
        is_finite_32(single),
        units_32(single) == units_64(bits),
{
    lemma2_to64();
    lemma2_to64_rest();
    lemma_magnitude_64(bits, mantissa, e);
    let t = spacing_32(bits);
    lemma_pow2_pos(k);
    lemma_shift_out(mantissa, (e - 1) as nat, k);
    lemma_round_shift_out(mantissa, (e - 1) as nat, k);
    assert(925 + t == (e - 1) + k);
    let n = mantissa / pow2(k);
    lemma_fundamental_div_mod(mantissa as int, pow2(k) as int);
    assert(narrowed(bits) == t * 0x80_0000 + n);
    lemma_pow2_adds((e - 1) as nat, k);
    lemma_pow2_adds(t, 925);
    assert(pow2(925 + t) == pow2(t) * pow2(925));
    assert(magnitude_64(bits) == n * pow2(t) * pow2(925)) by (nonlinear_arith)
        requires
            magnitude_64(bits) == mantissa * pow2((e - 1) as nat),
            mantissa == pow2(k) * n,
            pow2(925 + t) == pow2((e - 1) as nat) * pow2(k),
            pow2(925 + t) == pow2(t) * pow2(925),
    ;
    if e >= 897 {
        assert(0x80_0000 <= n < 0x100_0000);
        assert(exponent_32(single) == t + 1);
        assert(fraction_32(single) == n - 0x80_0000);
    } else {
        if k > 30 {
            lemma_pow2_strictly_increases(30, k);
        }
        lemma_div_is_ordered_by_denominator(mantissa as int, 0x4000_0000, pow2(k) as int);
        assert(n < 0x80_0000);
        lemma_mul_basics(n as int);
        assert(exponent_32(single) == 0);
    }
}

/// A double that is worth what some single is worth has a mantissa that is a
/// multiple of the spacing of the singles around it.
proof fn lemma_fits_divides(bits: u64, single: u32, mantissa: nat, e: nat, k: nat)
    requires
        is_finite_64(bits),
        is_finite_32(single),
        units_32(single) == units_64(bits),
        e == if exponent_64(bits) == 0 { 1 } else { exponent_64(bits) },
        mantissa == if exponent_64(bits) == 0 {
            fraction_64(bits)
        } else {
            0x10_0000_0000_0000 + fraction_64(bits)
        },
        k == if e < 897 { (926 - e) as nat } else { 29 },
    ensures
        mantissa % pow2(k) == 0,
        exponent_64(bits) < 1151,
{
    lemma2_to64();
    lemma2_to64_rest();
    lemma_magnitude_64(bits, mantissa, e);
    lemma_pow2_pos(925);
    let low = (e - 1) as nat;
    assert(magnitude_64(bits) == magnitude_32(single) * pow2(925));
    if e < 897 {
        lemma_shift_out(mantissa, low, k);
        assert(low + k == 925);
        lemma_fundamental_div_mod_converse(
            magnitude_64(bits) as int,
            pow2(925) as int,
            magnitude_32(single) as int,
            0,
        );
        let rest = mantissa % pow2(k);
        if rest != 0 {
            lemma_mul_strictly_positive(rest as int, pow2(low) as int);
        }
    } else {
        let e32 = if exponent_32(single) == 0 { 1 } else { exponent_32(single) };
        let m32 = if exponent_32(single) == 0 {
            fraction_32(single)
        } else {
            0x80_0000 + fraction_32(single)
        };
        lemma_mul_basics(m32 as int);
        assert(magnitude_32(single) == m32 * pow2((e32 - 1) as nat));
        lemma_pow2_adds((e32 - 1) as nat, 925);
        let high = (e32 + 924) as nat;
        assert(magnitude_64(bits) == m32 * pow2(high)) by {
            lemma_mul_is_associative(
                m32 as int,
                pow2((e32 - 1) as nat) as int,
                pow2(925) as int,
            );
        }
        lemma_pow2_pos(low);
        lemma_pow2_pos(high);
        if low + 29 > high {
            lemma_pow2_adds(52, low);
            lemma_pow2_adds(24, high);
            lemma_mul_inequality(0x10_0000_0000_0000, mantissa as int, pow2(low) as int);
            lemma_mul_strict_inequality(m32 as int, 0x100_0000, pow2(high) as int);
            if 52 + low > 24 + high {
                lemma_pow2_strictly_increases(24 + high, 52 + low);
            }
            assert(false);
        }
        let gap = (high - low) as nat;
        lemma_pow2_adds(gap, low);
        assert(mantissa == m32 * pow2(gap)) by (nonlinear_arith)
            requires
                mantissa * pow2(low) == m32 * pow2(high),
                pow2(high) == pow2(gap) * pow2(low),
                pow2(low) > 0,
        ;
        let over = (gap - 29) as nat;
        lemma_pow2_adds(over, 29);
        lemma_mul_is_associative(m32 as int, pow2(over) as int, pow2(29) as int);
        lemma_fundamental_div_mod_converse(
            mantissa as int,
            pow2(29) as int,
            (m32 * pow2(over)) as int,
            0,
        );
    }
}

/// The bits without the sign never reach the sign bit.
proof fn lemma_narrow_bound(bits: u64)
    requires
        is_finite_64(bits),
    ensures
        narrowed(bits) <= 0x7f80_0000,
{
    if exponent_64(bits) < 1151 {
        let e = if exponent_64(bits) == 0 { 1 } else { exponent_64(bits) };
        let mantissa = if exponent_64(bits) == 0 {
            fraction_64(bits)
        } else {
            0x10_0000_0000_0000 + fraction_64(bits)
        };
        let k: nat = if e < 897 { (926 - e) as nat } else { 29 };
        lemma_magnitude_64(bits, mantissa, e);
        lemma_round_shift_out(mantissa, (e - 1) as nat, k);
        assert(925 + spacing_32(bits) == (e - 1) + k);
        lemma_narrow_quotient(mantissa, k);
        assert(round_half_even(magnitude_64(bits), pow2(925 + spacing_32(bits)))
            == round_half_even(mantissa, pow2(k)));
        let rounded = round_half_even(mantissa, pow2(k));
        let spacing = spacing_32(bits);
        assert(narrowed(bits) == spacing * 0x80_0000 + rounded);
        assert(spacing * 0x80_0000 + rounded <= 0x7f80_0000) by (nonlinear_arith)
            requires
                spacing <= 253,
                rounded <= 0x100_0000,
        ;
    } else {
        assert(spacing_32(bits) >= 254);
    }
}

/// Narrowing a double that keeps its worth in single precision keeps it.
pub proof fn lemma_narrow_keeps_worth(bits: u64)
    requires
        is_exact(bits),
    ensures
        worth_32(single_of(bits)) == worth_64(bits),
        negative_32(single_of(bits)) == negative_64(bits),
{
    if is_finite_64(bits) {
        let e = if exponent_64(bits) == 0 { 1 } else { exponent_64(bits) };
        let mantissa = if exponent_64(bits) == 0 {
            fraction_64(bits)
        } else {
            0x10_0000_0000_0000 + fraction_64(bits)
        };
        let k = if e < 897 { (926 - e) as nat } else { 29 };
        let witness = choose|w: u32| is_finite_32(w) && #[trigger] units_32(w) == units_64(bits);
        lemma_narrow_bound(bits);
        lemma_fits_divides(bits, witness, mantissa, e, k);
        lemma_narrowed_worth(bits, single_of(bits), mantissa, e, k);
    }
}

/// Whether a double round-trips through single precision exactly.
pub fn is_exact_f64_to_f32(bits: u64) -> (exact: bool)
    ensures
        exact == is_exact(bits),
{
    let field: u64 = (bits / 0x10_0000_0000_0000) % 0x800;
    let fraction: u64 = bits % 0x10_0000_0000_0000;
    if field == 0x7ff {
        return true;
    }
    let e: u64 = if field == 0 { 1 } else { field };
    let mantissa: u64 = if field == 0 { fraction } else { 0x10_0000_0000_0000 + fraction };
    let k: u64 = if e < 897 { 926 - e } else { 29 };
    let divides: bool = if k <= 60 {
        mantissa % power_of_two_64(k) == 0
    } else {
        proof {
            lemma2_to64_rest();
            if k > 61 {
                lemma_pow2_strictly_increases(61, k as nat);
            }
            lemma_small_mod(mantissa as nat, pow2(k as nat));
        }
        mantissa == 0
    };
    let exact = field < 1151 && divides;
    proof {
        let high: nat = if negative_64(bits) { 0x8000_0000 } else { 0 };
        let single = (high + narrowed(bits)) as u32;
        assert(divides == (mantissa as nat % pow2(k as nat) == 0));
        if exact {
            lemma_narrow_bound(bits);
            lemma_narrowed_worth(bits, single, mantissa as nat, e as nat, k as nat);
            assert(units_32(single) == units_64(bits));
        }
        if fits_32(bits) {
            let w = choose|w: u32| is_finite_32(w) && #[trigger] units_32(w) == units_64(bits);
            lemma_fits_divides(bits, w, mantissa as nat, e as nat, k as nat);
        }
    }
    exact
}

/// The distance between two numbers of units.
pub open spec fn distance(a: int, b: int) -> int {
    if a < b {
        b - a
    } else {
        a - b
    }
}

/// The distance of a single from zero, from the multiple of its spacing that
/// its bits spell.
proof fn lemma_spelled_multiple(single: u32, t: nat, n: nat)
    requires
        (single % 0x8000_0000) as int == t * 0x80_0000 + n,
        n <= 0x100_0000,
        t > 0 ==> n >= 0x80_0000,
        is_finite_32(single),
    ensures
        magnitude_32(single) == n * pow2(t),
{
    lemma2_to64();
    lemma_mul_basics(n as int);
    if n < 0x80_0000 {
        assert(exponent_32(single) == 0);
    } else if n < 0x100_0000 {
        assert(exponent_32(single) == t + 1);
        assert(fraction_32(single) == n - 0x80_0000);
    } else {
        assert(exponent_32(single) == t + 2);
        assert(fraction_32(single) == 0);
        lemma_pow2_unfold(t + 1);
        assert(0x80_0000 * (2 * pow2(t)) == 0x100_0000 * pow2(t)) by (nonlinear_arith);
    }
}

/// A single is a multiple of a spacing, or no further from zero than the least
/// normal multiple of it.
proof fn lemma_multiple_or_small(single: u32, t: nat) -> (n: int)
    requires
        is_finite_32(single),
    ensures
        n >= 0,
        magnitude_32(single) == n * pow2(t) || (t > 0 && magnitude_32(single) <= 0x80_0000
            * pow2(t)),
{
    lemma2_to64();
    let a = if exponent_32(single) == 0 { 0 } else { (exponent_32(single) - 1) as nat };
    let m = if exponent_32(single) == 0 {
        fraction_32(single)
    } else {
        0x80_0000 + fraction_32(single)
    };
    lemma_mul_basics(m as int);
    assert(magnitude_32(single) == m * pow2(a));
    if a >= t {
        let up = (a - t) as nat;
        lemma_pow2_adds(up, t);
        lemma_mul_is_associative(m as int, pow2(up) as int, pow2(t) as int);
        lemma_pow2_pos(up);
        lemma_mul_nonnegative(m as int, pow2(up) as int);
        (m * pow2(up)) as int
    } else {
        lemma_pow2_unfold(t);
        let half = pow2((t - 1) as nat);
        if a < t - 1 {
            lemma_pow2_strictly_increases(a, (t - 1) as nat);
        }
        assert(m * pow2(a) <= 0x80_0000 * (2 * half)) by (nonlinear_arith)
            requires
                m < 0x100_0000,
                pow2(a) <= half,
        ;
        0
    }
}

/// The multiple of `d` that rounding picks is at most as far from `n` as any
/// other, and of two that are as near it is the even one.
proof fn lemma_round_is_nearest(n: nat, d: nat, other: int)
    requires
        d > 0,
    ensures
        distance((round_half_even(n, d) * d) as int, n as int) <= distance(other * d, n as int),
        distance((round_half_even(n, d) * d) as int, n as int) == distance(other * d, n as int) && other
            != round_half_even(n, d) ==> round_half_even(n, d) % 2 == 0,
        distance((round_half_even(n, d) * d) as int, n as int) <= n % d,
        distance((round_half_even(n, d) * d) as int, n as int) == n % d && n % d > 0
            && round_half_even(n, d) != n / d ==> round_half_even(n, d) % 2 == 0,
{
    let q = (n / d) as int;
    let r = (n % d) as int;
    let e = d as int;
    lemma_fundamental_div_mod(n as int, d as int);
    lemma_mod_bound(n as int, d as int);
    lemma_mul_is_commutative(e, q);
    assert(n == q * e + r);
    assert((q + 1) * e == q * e + e) by (nonlinear_arith);
    if other <= q {
        assert(other * e <= q * e) by (nonlinear_arith)
            requires
                other <= q,
                e > 0,
        ;
        if other < q {
            assert(other * e + e <= q * e) by (nonlinear_arith)
                requires
                    other + 1 <= q,
                    e > 0,
            ;
        }
    } else {
        assert((q + 1) * e <= other * e) by (nonlinear_arith)
            requires
                q + 1 <= other,
                e > 0,
        ;
        if other > q + 1 {
            assert((q + 1) * e + e <= other * e) by (nonlinear_arith)
                requires
                    q + 2 <= other,
                    e > 0,
            ;
        }
    }
}

/// The single that a finite double narrows to, where it is finite, is as near to
/// the double as any single, and of two that are as near it is the one with the
/// even bits; and it has the sign of the double.
pub proof fn law_narrow_is_nearest(bits: u64, other: u32)
    requires
        is_finite_64(bits),
        is_finite_32(single_of(bits)),
        is_finite_32(other),
    ensures
        negative_32(single_of(bits)) == negative_64(bits),
        distance(units_32(single_of(bits)), units_64(bits)) <= distance(
            units_32(other),
            units_64(bits),
        ),
        distance(units_32(single_of(bits)), units_64(bits)) == distance(
            units_32(other),
            units_64(bits),
        ) && units_32(other) != units_32(single_of(bits)) ==> single_of(bits) % 2 == 0,
{
    let single = single_of(bits);
    lemma_narrow_bound(bits);
    lemma2_to64();
    let t = spacing_32(bits);
    assert(t < 254);
    let d = pow2(925 + t);
    let p = pow2(925) as int;
    lemma_pow2_pos(925 + t);
    lemma_pow2_pos(925);
    lemma_pow2_pos(t);
    lemma_pow2_adds(t, 925);
    let m = magnitude_64(bits);
    let n = round_half_even(m, d);
    let e = if exponent_64(bits) == 0 { 1 } else { exponent_64(bits) };
    let mantissa = if exponent_64(bits) == 0 {
        fraction_64(bits)
    } else {
        0x10_0000_0000_0000 + fraction_64(bits)
    };
    let k: nat = if e < 897 { (926 - e) as nat } else { 29 };
    lemma_magnitude_64(bits, mantissa, e);
    assert((e - 1) + k == 925 + t);
    lemma_shift_out(mantissa, (e - 1) as nat, k);
    lemma_round_shift_out(mantissa, (e - 1) as nat, k);
    lemma_narrow_quotient(mantissa, k);
    assert(n <= 0x100_0000);
    assert(m / d == mantissa / pow2(k));
    if t > 0 {
        assert(mantissa / 0x2000_0000 >= 0x80_0000);
    }
    assert(single % 0x8000_0000 == t * 0x80_0000 + n);
    lemma_spelled_multiple(single, t, n);
    let value = (magnitude_32(single) * pow2(925)) as int;
    lemma_mul_is_associative(n as int, pow2(t) as int, p);
    assert(value == n * d);
    let factor = lemma_multiple_or_small(other, t);
    let far = (magnitude_32(other) * pow2(925)) as int;
    lemma_mul_is_associative(factor, pow2(t) as int, p);
    lemma_mul_nonnegative(magnitude_32(other) as int, p);
    let q = (m / d) as int;
    lemma_fundamental_div_mod(m as int, d as int);
    lemma_mul_is_commutative(d as int, q);
    lemma_mod_bound(m as int, d as int);
    lemma_mul_nonnegative(q, d as int);
    lemma_round_is_nearest(m, d, factor);
    lemma_round_is_nearest(m, d, 0);
    lemma_round_is_nearest(m, d, q);
    lemma_mul_basics(d as int);
    assert(distance(value, m as int) <= m % d);
    if magnitude_32(other) != factor * pow2(t) {
        assert(far <= 0x80_0000 * d) by (nonlinear_arith)
            requires
                far == magnitude_32(other) * p,
                magnitude_32(other) <= 0x80_0000 * pow2(t),
                d == pow2(t) * p,
                p > 0,
        ;
        assert(0x80_0000 * d <= q * d) by (nonlinear_arith)
            requires
                q >= 0x80_0000,
                d > 0,
        ;
        assert(far <= q * d <= m);
        assert(distance(value, m as int) <= distance(far, m as int));
    }
    assert(single % 2 == n % 2);
    if negative_32(other) == negative_64(bits) {
        assert(distance(units_32(single), units_64(bits)) == distance(value, m as int));
        assert(distance(units_32(other), units_64(bits)) == distance(far, m as int));
    } else {
        assert(distance(units_32(other), units_64(bits)) == far + m);
        assert(distance(units_32(single), units_64(bits)) == distance(value, m as int));
    }
}

/// A finite double narrows to infinity exactly if it is at least as far from
/// zero as the middle between the greatest single and the number that would
/// come next; infinity and NaN stay what they are, and the sign is kept.
pub proof fn law_narrow_to_infinity(bits: u64)
    ensures
        is_infinite_64(bits) ==> worth_32(single_of(bits)) == worth_64(bits),
        is_nan_64(bits) <==> is_nan_32(single_of(bits)),
        negative_32(single_of(bits)) == negative_64(bits),
        is_finite_64(bits) ==> (is_infinite_32(single_of(bits)) <==> magnitude_64(bits)
            >= 0x1ff_ffff * pow2(1177)),
{
    lemma_single_of_nan(bits);
    if is_finite_64(bits) {
        lemma_narrow_bound(bits);
        lemma2_to64();
        let t = spacing_32(bits);
        let e = if exponent_64(bits) == 0 { 1 } else { exponent_64(bits) };
        let mantissa = if exponent_64(bits) == 0 {
            fraction_64(bits)
        } else {
            0x10_0000_0000_0000 + fraction_64(bits)
        };
        lemma_magnitude_64(bits, mantissa, e);
        let m = magnitude_64(bits);
        let single = single_of(bits);
        assert(is_infinite_32(single) <==> narrowed(bits) == 0x7f80_0000);
        lemma_pow2_pos(1177);
        if t >= 254 {
            lemma2_to64_rest();
            if e - 1 > 1150 {
                lemma_pow2_strictly_increases(1150, (e - 1) as nat);
            }
            lemma_pow2_adds(52, 1150);
            lemma_pow2_adds(25, 1177);
            assert(m >= 0x200_0000 * pow2(1177)) by (nonlinear_arith)
                requires
                    m == mantissa * pow2((e - 1) as nat),
                    mantissa >= 0x10_0000_0000_0000,
                    pow2((e - 1) as nat) >= pow2(1150),
                    0x10_0000_0000_0000 * pow2(1150) == 0x200_0000 * pow2(1177),
            ;
            assert(m >= 0x1ff_ffff * pow2(1177)) by (nonlinear_arith)
                requires
                    m >= 0x200_0000 * pow2(1177),
            ;
        } else {
            let k: nat = if e < 897 { (926 - e) as nat } else { 29 };
            assert((e - 1) + k == 925 + t);
            lemma_round_shift_out(mantissa, (e - 1) as nat, k);
            lemma_narrow_quotient(mantissa, k);
            let n = round_half_even(mantissa, pow2(k));
            assert(narrowed(bits) == t * 0x80_0000 + n);
            if t == 253 {
                // The spacing of the greatest singles: only what rounds up
                // past all of them is infinite.
                assert(k == 29);
                lemma_pow2_adds(28, 1149);
                assert(n == 0x100_0000 <==> mantissa >= 0x1f_ffff_f000_0000);
                assert(0x1ff_ffff * pow2(1177) == 0x1f_ffff_f000_0000 * pow2(1149)) by (
                nonlinear_arith)
                    requires
                        pow2(1177) == 0x1000_0000 * pow2(1149),
                ;
                lemma_pow2_pos(1149);
                assert(mantissa * pow2(1149) >= 0x1f_ffff_f000_0000 * pow2(1149) <==> mantissa
                    >= 0x1f_ffff_f000_0000) by (nonlinear_arith)
                    requires
                        pow2(1149) > 0,
                ;
            } else {
                assert(t * 0x80_0000 + n < 0x7f80_0000) by (nonlinear_arith)
                    requires
                        t <= 252,
                        n <= 0x100_0000,
                ;
                if e - 1 < 1148 {
                    lemma_pow2_strictly_increases((e - 1) as nat, 1148);
                }
                lemma_pow2_adds(29, 1148);
                assert(m < 0x100_0000 * pow2(1177)) by (nonlinear_arith)
                    requires
                        m == mantissa * pow2((e - 1) as nat),
                        mantissa < 0x20_0000_0000_0000,
                        pow2((e - 1) as nat) <= pow2(1148),
                        pow2(1177) == 0x2000_0000 * pow2(1148),
                        pow2(1177) > 0,
                ;
                assert(m < 0x1ff_ffff * pow2(1177)) by (nonlinear_arith)
                    requires
                        m < 0x100_0000 * pow2(1177),
                        pow2(1177) > 0,
                ;
            }
        }
    }
}

/// A double is worth what its sign, exponent and fraction say: a normal one its
/// fraction behind a leading one, at two to the power of its exponent less the
/// bias; a subnormal one its fraction at the least exponent.
pub proof fn law_double_is_its_fields(bits: u64)
    requires
        is_finite_64(bits),
    ensures
        bits == exponent_64(bits) * pow2(52) + fraction_64(bits) + if negative_64(bits) {
            pow2(63)
        } else {
            0
        },
        exponent_64(bits) < 0x800 && fraction_64(bits) < pow2(52),
        ({
            let leading = if exponent_64(bits) == 0 { 0 } else { pow2(52) };
            let exponent = if exponent_64(bits) == 0 { 1 } else { exponent_64(bits) };
            let sign = if negative_64(bits) { -1int } else { 1int };
            units_64(bits) * pow2(52 + 1023) == sign * ((leading + fraction_64(bits)) * pow2(
                exponent,
            )) * one()
        }),
{
    lemma2_to64();
    lemma2_to64_rest();
    let e = if exponent_64(bits) == 0 { 1 } else { exponent_64(bits) };
    let m = if exponent_64(bits) == 0 {
        fraction_64(bits)
    } else {
        0x10_0000_0000_0000 + fraction_64(bits)
    };
    lemma_magnitude_64(bits, m, e);
    lemma_pow2_unfold(e);
    lemma_pow2_unfold(1075);
    lemma_fields(m as int, pow2((e - 1) as nat) as int, 1, one() as int);
}

/// Both sides of the value of a number with a mantissa `m`, where `p` is half
/// of what its exponent counts, and the scales make the same product.
proof fn lemma_fields(m: int, p: int, scale: int, unit: int)
    ensures
        (m * p * scale) * (2 * unit) == 1 * (m * (2 * p)) * (scale * unit),
        -(m * p * scale) * (2 * unit) == -1 * (m * (2 * p)) * (scale * unit),
{
    assert((m * p * scale) * (2 * unit) == (m * (2 * p)) * (scale * unit)) by (nonlinear_arith);
    assert(-(m * p * scale) * (2 * unit) == -((m * (2 * p)) * (scale * unit))) by (
    nonlinear_arith)
        requires
            (m * p * scale) * (2 * unit) == (m * (2 * p)) * (scale * unit),
    ;
    assert(-1 * (m * (2 * p)) * (scale * unit) == -((m * (2 * p)) * (scale * unit))) by (
    nonlinear_arith);
}

/// A single is worth what its sign, exponent and fraction say.
pub proof fn law_single_is_its_fields(bits: u32)
    requires
        is_finite_32(bits),
    ensures
        bits == exponent_32(bits) * pow2(23) + fraction_32(bits) + if negative_32(bits) {
            pow2(31)
        } else {
            0
        },
        exponent_32(bits) < 0x100 && fraction_32(bits) < pow2(23),
        ({
            let leading = if exponent_32(bits) == 0 { 0 } else { pow2(23) };
            let exponent = if exponent_32(bits) == 0 { 1 } else { exponent_32(bits) };
            let sign = if negative_32(bits) { -1int } else { 1int };
            units_32(bits) * pow2(23 + 127) == sign * ((leading + fraction_32(bits)) * pow2(
                exponent,
            )) * one()
        }),
{
    lemma2_to64();
    let e = if exponent_32(bits) == 0 { 1 } else { exponent_32(bits) };
    let m = if exponent_32(bits) == 0 {
        fraction_32(bits)
    } else {
        0x80_0000 + fraction_32(bits)
    };
    lemma_mul_basics(m as int);
    assert(magnitude_32(bits) == m * pow2((e - 1) as nat));
    lemma_pow2_unfold(e);
    lemma_pow2_unfold(150);
    lemma_pow2_adds(925, 149);
    lemma_fields(m as int, pow2((e - 1) as nat) as int, pow2(925) as int, pow2(149) as int);
}

/// A half is worth what its sign, exponent and fraction say.
pub proof fn law_half_is_its_fields(bits: u16)
    requires
        exponent_16(bits) < 0x1f,
    ensures
        bits == exponent_16(bits) * pow2(10) + fraction_16(bits) + if negative_16(bits) {
            pow2(15)
        } else {
            0
        },
        exponent_16(bits) < 0x20 && fraction_16(bits) < pow2(10),
        ({
            let leading = if exponent_16(bits) == 0 { 0 } else { pow2(10) };
            let exponent = if exponent_16(bits) == 0 { 1 } else { exponent_16(bits) };
            let sign = if negative_16(bits) { -1int } else { 1int };
            units_16(bits) * pow2(10 + 15) == sign * ((leading + fraction_16(bits)) * pow2(
                exponent,
            )) * one()
        }),
{
    lemma2_to64();
    let e = if exponent_16(bits) == 0 { 1 } else { exponent_16(bits) };
    let m = if exponent_16(bits) == 0 { fraction_16(bits) } else { 0x400 + fraction_16(bits) };
    lemma_mul_basics(m as int);
    assert(magnitude_16(bits) == m * pow2((e - 1) as nat));
    lemma_pow2_unfold(e);
    lemma_pow2_unfold(25);
    lemma_pow2_adds(1050, 24);
    lemma_fields(m as int, pow2((e - 1) as nat) as int, pow2(1050) as int, pow2(24) as int);
}

/// The floor of a number is the integer at or below it and less than one away,
/// the ceiling the integer at or above it and less than one away, and a number
/// is an integer exactly if both are it.
pub proof fn law_floor_and_ceiling(units: int)
    ensures
        floor_units(units) * one() <= units < (floor_units(units) + 1) * one(),
        (ceil_units(units) - 1) * one() < units <= ceil_units(units) * one(),
        integral_units(units) <==> floor_units(units) * one() == units,
        integral_units(units) <==> ceil_units(units) * one() == units,
{
    lemma_pow2_pos(1074);
    let d = one() as int;
    let f = floor_units(units);
    lemma_ceil_of_floor(units);
    lemma_fundamental_div_mod(units, d);
    lemma_mod_bound(units, d);
    lemma_mul_is_commutative(d, f);
    assert((f + 1) * d == f * d + d) by (nonlinear_arith);
    assert((f - 1) * d == f * d - d) by (nonlinear_arith);
}

/// Without the sign, the bits of finite doubles come before those of infinity,
/// and those of NaNs behind them; and what a double is worth says which it is.
pub proof fn law_kinds_of_doubles(bits: u64)
    ensures
        is_finite_64(bits) <==> bits % 0x8000_0000_0000_0000 < 0x7ff0_0000_0000_0000,
        is_infinite_64(bits) <==> bits % 0x8000_0000_0000_0000 == 0x7ff0_0000_0000_0000,
        is_nan_64(bits) <==> bits % 0x8000_0000_0000_0000 > 0x7ff0_0000_0000_0000,
        negative_64(bits) <==> bits / 0x8000_0000_0000_0000 == 1,
        is_finite_64(bits) ==> worth_64(bits) == Worth::Finite(units_64(bits)),
        is_nan_64(bits) ==> worth_64(bits) is Nan,
        is_infinite_64(bits) ==> worth_64(bits) == if negative_64(bits) {
            Worth::NegInfinity
        } else {
            Worth::Infinity
        },
{
}

/// Without the sign, the bits of finite singles come before those of infinity,
/// and those of NaNs behind them; and what a single is worth says which it is.
pub proof fn law_kinds_of_singles(bits: u32)
    ensures
        is_finite_32(bits) <==> bits % 0x8000_0000 < 0x7f80_0000,
        is_infinite_32(bits) <==> bits % 0x8000_0000 == 0x7f80_0000,
        is_nan_32(bits) <==> bits % 0x8000_0000 > 0x7f80_0000,
        negative_32(bits) <==> bits / 0x8000_0000 == 1,
        is_finite_32(bits) ==> worth_32(bits) == Worth::Finite(units_32(bits)),
        is_nan_32(bits) ==> worth_32(bits) is Nan,
        is_infinite_32(bits) ==> worth_32(bits) == if negative_32(bits) {
            Worth::NegInfinity
        } else {
            Worth::Infinity
        },
{
}

/// Without the sign, the bits of finite halves come before those of infinity,
/// and those of NaNs behind them; and what a half is worth says which it is.
pub proof fn law_kinds_of_halves(bits: u16)
    ensures
        is_infinite_16(bits) <==> bits % 0x8000 == 0x7c00,
        is_nan_16(bits) <==> bits % 0x8000 > 0x7c00,
        negative_16(bits) <==> bits / 0x8000 == 1,
        bits % 0x8000 < 0x7c00 ==> worth_16(bits) == Worth::Finite(units_16(bits)),
        is_nan_16(bits) ==> worth_16(bits) is Nan,
        is_infinite_16(bits) ==> worth_16(bits) == if negative_16(bits) {
            Worth::NegInfinity
        } else {
            Worth::Infinity
        },
{
}

/// An integer that an `i128` holds is not changed by saturation, and one that it
/// does not hold becomes the bound that it is past.
pub proof fn law_saturation(value: int)
    ensures
        i128::MIN <= saturated(value) <= i128::MAX,
        i128::MIN <= value <= i128::MAX ==> saturated(value) == value,
        value > i128::MAX ==> saturated(value) == i128::MAX,
        value < i128::MIN ==> saturated(value) == i128::MIN,
{
}

/// A double keeps its worth in single precision exactly if some single is worth
/// what it is worth, and then the single that it narrows to is.
pub proof fn law_exact_is_worth_a_single(bits: u64, single: u32)
    ensures
        is_exact(bits) ==> worth_32(single_of(bits)) == worth_64(bits),
        worth_32(single) == worth_64(bits) ==> is_exact(bits),
{
    if is_exact(bits) {
        lemma_narrow_keeps_worth(bits);
    }
    if worth_32(single) == worth_64(bits) && is_finite_64(bits) {
        assert(is_finite_32(single));
        assert(units_32(single) == units_64(bits));
    }
}

} // verus!
