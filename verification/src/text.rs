//! Text: appending to strings, and the decimal spelling of numbers.

use crate::float;
use vstd::arithmetic::div_mod::*;
use vstd::arithmetic::mul::*;
use vstd::arithmetic::power::*;
use vstd::arithmetic::power2::*;
use vstd::prelude::*;
use vstd::string::*;

verus! {

/// `String::push` appends one character.
pub assume_specification[ String::push ](buffer: &mut String, c: char)
    ensures
        final(buffer)@ == old(buffer)@.push(c),
;

/// The character of a decimal digit.
pub open spec fn digit_char(digit: nat) -> char {
    (48 + digit) as char
}

/// The decimal numeral of a natural number, without leading zeros.
pub open spec fn numeral(n: nat) -> Seq<char>
    decreases n,
{
    if n < 10 {
        seq![digit_char(n)]
    } else {
        numeral(n / 10).push(digit_char(n % 10))
    }
}

/// The decimal spelling of an integer.
pub open spec fn decimal(value: int) -> Seq<char> {
    if value < 0 {
        seq!['-'] + numeral((-value) as nat)
    } else {
        numeral(value as nat)
    }
}

/// The number that a sequence of decimal digits spells.
pub open spec fn number_of(digits: Seq<char>) -> int
    decreases digits.len(),
{
    if digits.len() == 0 {
        0
    } else {
        10 * number_of(digits.drop_last()) + (digits.last() as int - 48)
    }
}

/// The integer that an optional minus sign and decimal digits spell.
pub open spec fn integer_of(text: Seq<char>) -> int {
    if text.len() > 0 && text[0] == '-' {
        -number_of(text.skip(1))
    } else {
        number_of(text)
    }
}

/// A numeral has at least one digit and nothing but digits, and spells the
/// number that it was made of.
pub proof fn lemma_numeral_reads_back(n: nat)
    ensures
        numeral(n).len() > 0,
        forall|i: int| 0 <= i < numeral(n).len() ==> '0' <= #[trigger] numeral(n)[i] <= '9',
        number_of(numeral(n)) == n,
    decreases n,
{
    if n < 10 {
        assert(numeral(n).drop_last() == Seq::<char>::empty());
        assert(number_of(Seq::<char>::empty()) == 0);
    } else {
        lemma_numeral_reads_back(n / 10);
        assert(numeral(n).drop_last() == numeral(n / 10));
    }
}

/// A numeral has no zero in front, but for zero itself.
pub proof fn law_numeral_has_no_leading_zero(n: nat)
    ensures
        numeral(n).len() > 1 ==> numeral(n)[0] != '0',
        n > 0 ==> numeral(n)[0] != '0',
    decreases n,
{
    if n >= 10 {
        law_numeral_has_no_leading_zero(n / 10);
        lemma_numeral_reads_back(n / 10);
        assert(numeral(n)[0] == numeral(n / 10)[0]);
    }
}

/// The decimal spelling of an integer reads back as that integer.
pub proof fn law_integer_reads_back(value: int)
    ensures
        integer_of(decimal(value)) == value,
{
    if value < 0 {
        lemma_numeral_reads_back((-value) as nat);
        assert(decimal(value).skip(1) == numeral((-value) as nat));
    } else {
        lemma_numeral_reads_back(value as nat);
    }
}

fn digit(d: u8) -> (c: char)
    requires
        d < 10,
    ensures
        c == digit_char(d as nat),
{
    match d {
        0 => '0',
        1 => '1',
        2 => '2',
        3 => '3',
        4 => '4',
        5 => '5',
        6 => '6',
        7 => '7',
        8 => '8',
        _ => '9',
    }
}

/// The number whose decimal digits, the least first, are `digits`.
pub open spec fn digits_value(digits: Seq<u8>) -> nat
    decreases digits.len(),
{
    if digits.len() == 0 {
        0
    } else {
        digits[0] as nat + 10 * digits_value(digits.skip(1))
    }
}

/// Decimal digits, the least first, without a zero in front but for zero
/// itself.
pub open spec fn is_digits(digits: Seq<u8>) -> bool {
    &&& digits.len() > 0
    &&& forall|i: int| 0 <= i < digits.len() ==> #[trigger] digits[i] < 10
    &&& digits.len() > 1 ==> digits.last() != 0
}

/// The characters of the digits from the last to the one at `from`.
proof fn lemma_numeral_of_digits(digits: Seq<u8>)
    requires
        is_digits(digits),
    ensures
        numeral(digits_value(digits)) == digits.map_values(
            |d: u8| digit_char(d as nat),
        ).reverse(),
        digits.last() != 0 ==> digits_value(digits) > 0,
    decreases digits.len(),
{
    let rest = digits.skip(1);
    let chars = digits.map_values(|d: u8| digit_char(d as nat)).reverse();
    if digits.len() == 1 {
        assert(digits_value(rest) == 0);
        assert(chars == seq![digit_char(digits[0] as nat)]);
    } else {
        assert(rest.last() == digits.last());
        lemma_numeral_of_digits(rest);
        let n = digits_value(digits);
        assert(n / 10 == digits_value(rest) && n % 10 == digits[0]);
        let tail = rest.map_values(|d: u8| digit_char(d as nat)).reverse();
        assert(chars =~= tail.push(digit_char(digits[0] as nat)));
    }
}

/// Appends the numeral that `digits` hold to `text`.
fn push_digits(text: &mut String, digits: &Vec<u8>)
    requires
        is_digits(digits@),
    ensures
        final(text)@ == old(text)@ + numeral(digits_value(digits@)),
{
    let ghost before = text@;
    let ghost chars = digits@.map_values(|d: u8| digit_char(d as nat)).reverse();
    let mut i: usize = digits.len();
    assert(chars.take(0) == Seq::<char>::empty());
    while i > 0
        invariant
            i <= digits@.len(),
            is_digits(digits@),
            chars == digits@.map_values(|d: u8| digit_char(d as nat)).reverse(),
            text@ == before + chars.take(digits@.len() - i),
        decreases i,
    {
        i = i - 1;
        text.push(digit(digits[i]));
        assert(chars.take(digits@.len() - i) == chars.take(digits@.len() - i - 1).push(
            chars[digits@.len() - i - 1],
        ));
    }
    assert(chars.take(digits@.len() as int) == chars);
    proof {
        lemma_numeral_of_digits(digits@);
    }
}

/// The decimal digits of a number, the least first.
fn digits_of(n: u128) -> (digits: Vec<u8>)
    ensures
        is_digits(digits@),
        digits_value(digits@) == n,
    decreases n,
{
    let least: u8 = (n % 10) as u8;
    let mut digits: Vec<u8> = Vec::new();
    digits.push(least);
    if n < 10 {
        assert(digits@.skip(1) == Seq::<u8>::empty());
        assert(digits_value(Seq::<u8>::empty()) == 0);
        return digits;
    }
    let mut rest: Vec<u8> = digits_of(n / 10);
    let ghost tail = rest@;
    digits.append(&mut rest);
    assert(digits@.skip(1) == tail);
    assert(digits@.last() == tail.last());
    assert(tail.len() == 1 ==> digits_value(tail.skip(1)) == 0 && tail.last() != 0);
    digits
}

/// The decimal spelling of an integer.
pub fn decimal_text(value: i128) -> (text: String)
    ensures
        text@ == decimal(value as int),
{
    let mut text = String::new();
    if value < 0 {
        text.push('-');
        let magnitude: u128 = (-(value + 1)) as u128 + 1;
        push_digits(&mut text, &digits_of(magnitude));
    } else {
        push_digits(&mut text, &digits_of(value as u128));
    }
    assert(text@ == decimal(value as int));
    text
}

/// One more digit in front counts a power of ten higher.
proof fn lemma_digits_push(digits: Seq<u8>, d: u8)
    ensures
        digits_value(digits.push(d)) == digits_value(digits) + d * pow(10, digits.len()),
    decreases digits.len(),
{
    reveal(pow);
    if digits.len() == 0 {
        assert(digits.push(d).skip(1) == Seq::<u8>::empty());
        assert(digits_value(Seq::<u8>::empty()) == 0);
    } else {
        let rest = digits.skip(1);
        lemma_digits_push(rest, d);
        assert(digits.push(d).skip(1) == rest.push(d));
        assert(10 * (d * pow(10, rest.len())) == d * pow(10, digits.len())) by {
            lemma_mul_is_associative(d as int, 10, pow(10, rest.len()));
            lemma_mul_is_associative(10, d as int, pow(10, rest.len()));
            lemma_mul_is_commutative(d as int, 10);
        }
    }
}

/// The digits of twice the number.
fn double_digits(digits: &Vec<u8>) -> (doubled: Vec<u8>)
    requires
        is_digits(digits@),
    ensures
        is_digits(doubled@),
        digits_value(doubled@) == 2 * digits_value(digits@),
{
    let mut doubled: Vec<u8> = Vec::new();
    let mut carry: u8 = 0;
    assert(digits_value(digits@.take(0)) == 0);
    proof {
        lemma_mul_basics(pow(10, 0));
    }
    for i in 0..digits.len()
        invariant
            is_digits(digits@),
            doubled@.len() == i,
            carry <= 1,
            forall|j: int| 0 <= j < i ==> #[trigger] doubled@[j] < 10,
            digits_value(doubled@) + carry * pow(10, i as nat) == 2 * digits_value(
                digits@.take(i as int),
            ),
            i > 0 && i == digits@.len() && i > 1 ==> carry != 0 || doubled@.last() != 0,
    {
        let d: u8 = 2 * digits[i] + carry;
        proof {
            let p = pow(10, i as nat);
            assert(digits@.take(i + 1) == digits@.take(i as int).push(digits@[i as int]));
            lemma_digits_push(digits@.take(i as int), digits@[i as int]);
            lemma_digits_push(doubled@, (d % 10) as u8);
            assert(pow(10, (i + 1) as nat) == 10 * p) by {
                reveal(pow);
            }
            assert((d % 10) as int * p + (d / 10) as int * (10 * p) == (2 * digits@[i as int]
                + carry as int) * p) by (nonlinear_arith)
                requires
                    d == 2 * digits@[i as int] + carry as int,
            ;
            assert((2 * digits@[i as int] + carry as int) * p == 2 * (digits@[i as int] * p)
                + carry * p) by (nonlinear_arith);
        }
        doubled.push(d % 10);
        carry = d / 10;
    }
    assert(digits@.take(digits@.len() as int) == digits@);
    if carry > 0 {
        proof {
            lemma_digits_push(doubled@, carry);
        }
        doubled.push(carry);
    } else {
        proof {
            lemma_mul_basics(pow(10, digits@.len()));
        }
    }
    doubled
}

/// The distance of a number from zero.
pub open spec fn magnitude(units: int) -> nat {
    if units < 0 {
        (-units) as nat
    } else {
        units as nat
    }
}

/// The spelling of an integral number of units: its sign, its exact value, and
/// one decimal place. A zero may have a sign too.
pub open spec fn integral_spelling(negative: bool, units: int) -> Seq<char> {
    let sign = if negative { seq!['-'] } else { Seq::<char>::empty() };
    sign + numeral(magnitude(units) / float::one()) + seq!['.', '0']
}

/// The spelling of an integral number reads back as its sign, the number and
/// one decimal place: it is never rounded, however large the number is.
pub proof fn law_integral_number_reads_back(negative: bool, units: int)
    requires
        float::integral_units(units),
    ensures
        ({
            let spelling = integral_spelling(negative, units);
            let body = spelling.skip(
                if negative {
                    1
                } else {
                    0
                },
            );
            &&& negative <==> spelling[0] == '-'
            &&& body.len() > 2
            &&& body.skip(body.len() - 2) == seq!['.', '0']
            &&& number_of(body.take(body.len() - 2)) * float::one() == magnitude(units)
        }),
{
    let n = magnitude(units) / float::one();
    lemma_numeral_reads_back(n);
    let spelling = integral_spelling(negative, units);
    let body = spelling.skip(
        if negative {
            1
        } else {
            0
        },
    );
    assert(body == numeral(n) + seq!['.', '0']);
    assert(body.take(body.len() - 2) == numeral(n));
    lemma_pow2_pos(1074);
    let one = float::one() as int;
    let m = magnitude(units) as int;
    assert(m % one == 0) by {
        if units < 0 {
            let q = units / one;
            lemma_fundamental_div_mod(units, one);
            lemma_mul_unary_negation(one, q);
            lemma_mul_is_commutative(one, -q);
            lemma_mod_multiples_basic(-q, one);
        }
    }
    lemma_fundamental_div_mod(m, one);
    lemma_mul_is_commutative(one, m / one);
    assert(spelling[0] == if negative { '-' } else { numeral(n)[0] });
}

/// The spelling of a finite integral double with one decimal place.
pub fn integral_text(bits: u64) -> (text: String)
    requires
        float::is_finite_64(bits),
        float::is_integral_64(bits),
    ensures
        text@ == integral_spelling(float::negative_64(bits), float::units_64(bits)),
{
    let parts = float::integral_parts(bits);
    let mut digits: Vec<u8> = digits_of(parts.0 as u128);
    let ghost start = digits_value(digits@);
    proof {
        lemma2_to64();
        lemma_mul_basics(start as int);
    }
    for i in 0..parts.1
        invariant
            is_digits(digits@),
            digits_value(digits@) == start * pow2(i as nat),
    {
        proof {
            lemma_pow2_unfold((i + 1) as nat);
            lemma_mul_is_associative(start as int, pow2(i as nat) as int, 2);
        }
        digits = double_digits(&digits);
    }
    let mut text = String::new();
    if float::is_sign_negative(bits) {
        text.push('-');
    }
    push_digits(&mut text, &digits);
    text.push('.');
    text.push('0');
    assert(text@ == integral_spelling(float::negative_64(bits), float::units_64(bits)));
    text
}

} // verus!
