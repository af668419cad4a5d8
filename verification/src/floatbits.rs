//! IEEE-754 binary64 numbers as the engine carries them: by their 64-bit
//! pattern. Classification (finite, NaN) and the IEEE comparison order are
//! exact integer predicates over the pattern and are verified here; the
//! arithmetic the aggregator needs (sum, mean, distance) is supplied through
//! [`FloatArith`] by the embedding program.

use vstd::prelude::*;

verus! {

/// The sign bit of a binary64 pattern.
pub const SIGN_BIT: u64 = 0x8000_0000_0000_0000;

/// The pattern of positive infinity (all exponent bits set, zero fraction).
pub const INFINITY_BITS: u64 = 0x7ff0_0000_0000_0000;

/// The pattern of `0.0`.
pub const ZERO_BITS: u64 = 0;

/// The sign bit is set (negative numbers, `-0.0`, negative NaNs).
pub open spec fn sign_negative(bits: u64) -> bool {
    bits >= SIGN_BIT
}

/// All bits but the sign bit.
pub open spec fn magnitude(bits: u64) -> int {
    if sign_negative(bits) {
        bits - SIGN_BIT
    } else {
        bits as int
    }
}

/// Zero, subnormal or normal: neither infinite nor NaN.
pub open spec fn is_finite(bits: u64) -> bool {
    magnitude(bits) < INFINITY_BITS
}

/// A NaN pattern.
pub open spec fn is_nan(bits: u64) -> bool {
    magnitude(bits) > INFINITY_BITS
}

/// A key that orders non-NaN patterns as IEEE-754 orders their values:
/// `-0.0` and `0.0` share the key 0.
pub open spec fn order_key(bits: u64) -> int {
    if sign_negative(bits) {
        -magnitude(bits)
    } else {
        magnitude(bits)
    }
}

/// IEEE-754 `a < b` (false when either is NaN).
pub open spec fn float_lt(a: u64, b: u64) -> bool {
    !is_nan(a) && !is_nan(b) && order_key(a) < order_key(b)
}

/// IEEE-754 `a <= b` (false when either is NaN).
pub open spec fn float_le(a: u64, b: u64) -> bool {
    !is_nan(a) && !is_nan(b) && order_key(a) <= order_key(b)
}

/// IEEE-754 `a == b` (false when either is NaN; `-0.0 == 0.0`).
pub open spec fn float_eq(a: u64, b: u64) -> bool {
    !is_nan(a) && !is_nan(b) && order_key(a) == order_key(b)
}

/// `f64::min`: the smaller value; when one operand is NaN, the other.
pub open spec fn float_min(a: u64, b: u64) -> u64 {
    if is_nan(a) {
        b
    } else if is_nan(b) {
        a
    } else if float_lt(b, a) {
        b
    } else {
        a
    }
}

/// `f64::max`: the larger value; when one operand is NaN, the other.
pub open spec fn float_max(a: u64, b: u64) -> u64 {
    if is_nan(a) {
        b
    } else if is_nan(b) {
        a
    } else if float_lt(a, b) {
        b
    } else {
        a
    }
}

fn magnitude_exec(bits: u64) -> (m: u64)
    ensures
        m == magnitude(bits),
{
    if bits >= SIGN_BIT {
        bits - SIGN_BIT
    } else {
        bits
    }
}

/// `f64::is_finite` on a pattern.
pub fn bits_is_finite(bits: u64) -> (r: bool)
    ensures
        r == is_finite(bits),
{
    magnitude_exec(bits) < INFINITY_BITS
}

/// `f64::is_nan` on a pattern.
pub fn bits_is_nan(bits: u64) -> (r: bool)
    ensures
        r == is_nan(bits),
{
    magnitude_exec(bits) > INFINITY_BITS
}

/// IEEE-754 `a < b`.
pub fn bits_lt(a: u64, b: u64) -> (r: bool)
    ensures
        r == float_lt(a, b),
{
    if bits_is_nan(a) || bits_is_nan(b) {
        return false;
    }
    let ma = magnitude_exec(a);
    let mb = magnitude_exec(b);
    let na = a >= SIGN_BIT;
    let nb = b >= SIGN_BIT;
    if na && nb {
        mb < ma
    } else if na {
        !(ma == 0 && mb == 0)
    } else if nb {
        false
    } else {
        ma < mb
    }
}

/// IEEE-754 `a == b`.
pub fn bits_eq(a: u64, b: u64) -> (r: bool)
    ensures
        r == float_eq(a, b),
{
    if bits_is_nan(a) || bits_is_nan(b) {
        return false;
    }
    let ma = magnitude_exec(a);
    let mb = magnitude_exec(b);
    let na = a >= SIGN_BIT;
    let nb = b >= SIGN_BIT;
    if na == nb {
        ma == mb
    } else {
        ma == 0 && mb == 0
    }
}

/// IEEE-754 `a <= b`.
pub fn bits_le(a: u64, b: u64) -> (r: bool)
    ensures
        r == float_le(a, b),
{
    bits_lt(a, b) || bits_eq(a, b)
}

/// `f64::min` on patterns.
pub fn bits_min(a: u64, b: u64) -> (r: u64)
    ensures
        r == float_min(a, b),
{
    if bits_is_nan(a) {
        b
    } else if bits_is_nan(b) {
        a
    } else if bits_lt(b, a) {
        b
    } else {
        a
    }
}

/// `f64::max` on patterns.
pub fn bits_max(a: u64, b: u64) -> (r: u64)
    ensures
        r == float_max(a, b),
{
    if bits_is_nan(a) {
        b
    } else if bits_is_nan(b) {
        a
    } else if bits_lt(a, b) {
        b
    } else {
        a
    }
}

/// Binary64 arithmetic on bit patterns. The engine delegates the few
/// arithmetic steps of window aggregation to the embedding program through
/// this trait; nothing is assumed of the results.
pub trait FloatArith {
    /// The pattern of `a + b`.
    fn add(&self, a: u64, b: u64) -> u64;

    /// The pattern of `sum / (count as f64)`.
    fn mean(&self, sum: u64, count: u64) -> u64;

    /// The pattern of `count as f64`.
    fn from_count(&self, count: u64) -> u64;

    /// The pattern of `(a - b).abs()`.
    fn abs_diff(&self, a: u64, b: u64) -> u64;

    /// The pattern of the number a decimal text denotes
    /// (`str::parse::<f64>`), or `None` when the text is not a number.
    fn parse_decimal(&self, text: &str) -> Option<u64>;

    /// The pattern of a JSON number (`serde_json::Number::as_f64`), or
    /// `None` when it has no binary64 form.
    fn json_number(&self, n: &serde_json::Number) -> Option<u64>;

    /// The JSON value of the number with this pattern
    /// (`serde_json::Value::from(f64)`: a number, or null when the number
    /// is not finite).
    fn number_json(&self, bits: u64) -> serde_json::Value;

    /// The pattern of `num as f64 / den as f64`.
    fn ratio(&self, num: u128, den: u64) -> u64;

    /// The text of the number with this pattern (`Display` for `f64`).
    fn display(&self, bits: u64) -> String;

    /// The nearest rank of the percentile with pattern `p_bits` among
    /// `count` samples: `((p / 100.0) * count as f64).ceil() as usize`.
    fn nearest_rank(&self, p_bits: u64, count: usize) -> usize;
}

} // verus!
