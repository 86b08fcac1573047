//! Numbers are IEEE-754 binary64 values, held as their 64-bit patterns: one
//! sign bit, eleven exponent bits, fifty-two fraction bits.
//!
//! Order, equality and negation are decided here on the bit patterns. The
//! four rounded arithmetic operations and the reading of a decimal literal
//! are done by `rustc_apfloat`; their results are named, not defined.

use rustc_apfloat::ieee::Double;
use rustc_apfloat::Float;
use std::str::FromStr;
use vstd::prelude::*;

verus! {

/// The pattern of the sign bit alone.
pub const SIGN_BIT: u64 = 0x8000_0000_0000_0000;

/// The pattern of positive infinity: every exponent bit set, no fraction bit.
pub const INFINITY_BITS: u64 = 0x7ff0_0000_0000_0000;

/// The pattern without its sign bit.
pub open spec fn magnitude(bits: u64) -> int {
    if bits >= SIGN_BIT {
        bits - SIGN_BIT
    } else {
        bits as int
    }
}

/// The pattern is one of the values that are not numbers.
pub open spec fn is_nan(bits: u64) -> bool {
    magnitude(bits) > INFINITY_BITS
}

/// An integer that orders the patterns as their values are ordered: for
/// values that are numbers, `x < y` exactly when `ordinal(x) < ordinal(y)`.
/// Both zeros have ordinal 0.
pub open spec fn ordinal(bits: u64) -> int {
    if bits >= SIGN_BIT {
        -magnitude(bits)
    } else {
        magnitude(bits)
    }
}

/// The pattern is a zero.
pub open spec fn is_zero(bits: u64) -> bool {
    magnitude(bits) == 0
}

/// The pattern of the infinity whose sign bit is set exactly when `negative`.
pub open spec fn infinity(negative: bool) -> u64 {
    if negative {
        (INFINITY_BITS + SIGN_BIT) as u64
    } else {
        INFINITY_BITS
    }
}

/// The pattern is what a number literal can write: a zero, a positive number
/// or positive infinity, with the sign bit clear.
pub open spec fn is_literal_number(bits: u64) -> bool {
    bits <= INFINITY_BITS
}

/// IEEE-754 equality: false when either side is not a number; the two zeros
/// are equal.
pub open spec fn numbers_equal(a: u64, b: u64) -> bool {
    !is_nan(a) && !is_nan(b) && ordinal(a) == ordinal(b)
}

/// IEEE-754 `<`: false when either side is not a number.
pub open spec fn numbers_less(a: u64, b: u64) -> bool {
    !is_nan(a) && !is_nan(b) && ordinal(a) < ordinal(b)
}

/// IEEE-754 `<=`: false when either side is not a number.
pub open spec fn numbers_less_equal(a: u64, b: u64) -> bool {
    !is_nan(a) && !is_nan(b) && ordinal(a) <= ordinal(b)
}

/// The pattern with its sign bit flipped.
pub open spec fn negated(bits: u64) -> u64 {
    if bits >= SIGN_BIT {
        (bits - SIGN_BIT) as u64
    } else {
        (bits + SIGN_BIT) as u64
    }
}

/// Every character of `s` is a decimal digit.
pub open spec fn all_digits(s: Seq<char>) -> bool {
    forall|i: int| 0 <= i < s.len() ==> crate::digit(#[trigger] s[i])
}

/// `s` is one or more digits, or that followed by a dot and one or more
/// digits; `k` is the length of the first run of digits.
pub open spec fn decimal_literal_with(s: Seq<char>, k: int) -> bool {
    &&& 0 < k <= s.len()
    &&& all_digits(s.take(k))
    &&& k < s.len() ==> s[k] == '.' && k + 1 < s.len() && all_digits(s.skip(k + 1))
}

/// `s` has the form of a number literal.
pub open spec fn is_decimal_literal(s: Seq<char>) -> bool {
    exists|k: int| decimal_literal_with(s, k)
}

/// What `rustc_apfloat` gives for `a + b`, rounding to nearest, ties to even.
pub uninterp spec fn ieee_sum(a: u64, b: u64) -> u64;

/// What `rustc_apfloat` gives for `a - b`, rounding to nearest, ties to even.
pub uninterp spec fn ieee_difference(a: u64, b: u64) -> u64;

/// What `rustc_apfloat` gives for `a * b`, rounding to nearest, ties to even.
pub uninterp spec fn ieee_product(a: u64, b: u64) -> u64;

/// What `rustc_apfloat` gives for `a / b`, rounding to nearest, ties to even.
pub uninterp spec fn ieee_quotient(a: u64, b: u64) -> u64;

/// What `rustc_apfloat` reads from a decimal text, rounding to nearest, ties
/// to even.
pub uninterp spec fn decimal_value(text: Seq<char>) -> u64;

/// The quotient `a / b`: where a number other than zero is divided by a zero,
/// the infinity whose sign is negative exactly when the signs of the two
/// differ; everywhere else what `rustc_apfloat` gives.
pub open spec fn quotient(a: u64, b: u64) -> u64 {
    if is_zero(b) && !is_nan(a) && !is_zero(a) {
        infinity((a >= SIGN_BIT) != (b >= SIGN_BIT))
    } else {
        ieee_quotient(a, b)
    }
}

/// `Add::add` of `rustc_apfloat::ieee::Double`, between `Float::from_bits` and
/// `Float::to_bits`. The sum is a function of the two patterns alone; nothing
/// else is claimed of it.
#[verifier::external_body]
pub(crate) fn sum_of(a: u64, b: u64) -> (r: u64)
    ensures
        r == ieee_sum(a, b),
{
    (Double::from_bits(a as u128) + Double::from_bits(b as u128)).value.to_bits() as u64
}

/// `Sub::sub` of `rustc_apfloat::ieee::Double`, between `Float::from_bits` and
/// `Float::to_bits`. The difference is a function of the two patterns alone;
/// nothing else is claimed of it.
#[verifier::external_body]
pub(crate) fn difference_of(a: u64, b: u64) -> (r: u64)
    ensures
        r == ieee_difference(a, b),
{
    (Double::from_bits(a as u128) - Double::from_bits(b as u128)).value.to_bits() as u64
}

/// `Mul::mul` of `rustc_apfloat::ieee::Double`, between `Float::from_bits` and
/// `Float::to_bits`. The product is a function of the two patterns alone;
/// nothing else is claimed of it.
#[verifier::external_body]
pub(crate) fn product_of(a: u64, b: u64) -> (r: u64)
    ensures
        r == ieee_product(a, b),
{
    (Double::from_bits(a as u128) * Double::from_bits(b as u128)).value.to_bits() as u64
}

/// `Div::div` of `rustc_apfloat::ieee::Double`, between `Float::from_bits` and
/// `Float::to_bits`. The quotient is a function of the two patterns alone.
/// Division by zero does not fail: a number other than zero divided by a zero
/// gives the infinity whose sign is negative exactly when the signs of the
/// two differ, and a zero divided by a zero gives a value that is not a
/// number. Nothing else is claimed of the quotient.
#[verifier::external_body]
pub(crate) fn quotient_of(a: u64, b: u64) -> (r: u64)
    ensures
        r == ieee_quotient(a, b),
        is_zero(b) && !is_nan(a) && !is_zero(a) ==> r == infinity(
            (a >= SIGN_BIT) != (b >= SIGN_BIT),
        ),
        is_zero(b) && is_zero(a) ==> is_nan(r),
{
    (Double::from_bits(a as u128) / Double::from_bits(b as u128)).value.to_bits() as u64
}

/// `FromStr::from_str` of `rustc_apfloat::ieee::Double`, followed by
/// `Float::to_bits`. On a text of digits with at most one dot between digits
/// the call returns `Ok`, and what it returns is a zero, a positive number or
/// positive infinity: never a value that is not a number, never one with
/// the sign bit set. The value is a function of the text alone, and nothing
/// else is claimed of it.
#[verifier::external_body]
pub(crate) fn value_of_decimal(text: &str) -> (r: u64)
    requires
        is_decimal_literal(text@),
    ensures
        r == decimal_value(text@),
        is_literal_number(r),
{
    Double::from_str(text).unwrap().to_bits() as u64
}

/// Whether `bits` is a value that is not a number.
pub fn number_is_nan(bits: u64) -> (b: bool)
    ensures
        b == is_nan(bits),
{
    if bits >= SIGN_BIT {
        bits - SIGN_BIT > INFINITY_BITS
    } else {
        bits > INFINITY_BITS
    }
}

/// Flips the sign of `bits`.
pub fn number_negate(bits: u64) -> (r: u64)
    ensures
        r == negated(bits),
{
    if bits >= SIGN_BIT {
        bits - SIGN_BIT
    } else {
        bits + SIGN_BIT
    }
}

/// The pattern without its sign bit.
fn magnitude_of(bits: u64) -> (m: u64)
    ensures
        m == magnitude(bits),
{
    if bits >= SIGN_BIT {
        bits - SIGN_BIT
    } else {
        bits
    }
}

/// IEEE-754 equality of two patterns.
pub fn number_equal(a: u64, b: u64) -> (r: bool)
    ensures
        r == numbers_equal(a, b),
{
    if number_is_nan(a) || number_is_nan(b) {
        false
    } else {
        let x = magnitude_of(a);
        let y = magnitude_of(b);
        a == b || (x == 0 && y == 0)
    }
}

/// IEEE-754 `<` of two patterns.
pub fn number_less(a: u64, b: u64) -> (r: bool)
    ensures
        r == numbers_less(a, b),
{
    if number_is_nan(a) || number_is_nan(b) {
        false
    } else {
        let x = magnitude_of(a);
        let y = magnitude_of(b);
        if a >= SIGN_BIT {
            if b >= SIGN_BIT {
                y < x
            } else {
                x > 0 || y > 0
            }
        } else {
            if b >= SIGN_BIT {
                false
            } else {
                x < y
            }
        }
    }
}

/// IEEE-754 `<=` of two patterns.
pub fn number_less_equal(a: u64, b: u64) -> (r: bool)
    ensures
        r == numbers_less_equal(a, b),
{
    if number_is_nan(a) || number_is_nan(b) {
        false
    } else {
        let x = magnitude_of(a);
        let y = magnitude_of(b);
        if a >= SIGN_BIT {
            if b >= SIGN_BIT {
                y <= x
            } else {
                true
            }
        } else {
            if b >= SIGN_BIT {
                x == 0 && y == 0
            } else {
                x <= y
            }
        }
    }
}


/// What a number literal writes is a number that is not negative, and so
/// equal to itself.
pub proof fn lemma_literal_number(bits: u64)
    requires
        is_literal_number(bits),
    ensures
        !is_nan(bits),
        bits < SIGN_BIT,
        numbers_equal(bits, bits),
        !numbers_less(bits, 0),
{
}

/// The order of the patterns is that of the values: `<=` is `<` or `==`,
/// `<` is strict and transitive, two numbers are always comparable, and
/// negation is its own inverse and turns the order round.
pub proof fn lemma_order_of_numbers(a: u64, b: u64, c: u64)
    ensures
        numbers_less_equal(a, b) == (numbers_less(a, b) || numbers_equal(a, b)),
        !(numbers_less(a, b) && numbers_less(b, a)),
        numbers_less(a, b) && numbers_less(b, c) ==> numbers_less(a, c),
        !is_nan(a) && !is_nan(b) ==> numbers_less(a, b) || numbers_equal(a, b) || numbers_less(
            b,
            a,
        ),
        negated(negated(a)) == a,
        is_nan(negated(a)) == is_nan(a),
        numbers_less(a, b) == numbers_less(negated(b), negated(a)),
{
}

} // verus!
