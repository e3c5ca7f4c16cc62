//! Numbers as IEEE 754 binary64 bit patterns.
//!
//! A number is held as the 64 bits of a double: one sign bit, eleven
//! exponent bits, fifty-two fraction bits. Ordering, equality and negation
//! depend only on that layout and are computed here. Everything that needs
//! rounding is left to the host.

use vstd::prelude::*;

verus! {

/// The weight of the sign bit.
pub const SIGN: u64 = 0x8000_0000_0000_0000u64;

/// The magnitude of positive infinity; larger magnitudes are not numbers.
pub const INFINITY: u64 = 0x7ff0_0000_0000_0000u64;

/// The bits without the sign.
pub open spec fn magnitude(bits: u64) -> int {
    bits as int % 0x8000_0000_0000_0000
}

/// Whether the sign bit is set.
pub open spec fn is_negative(bits: u64) -> bool {
    bits >= 0x8000_0000_0000_0000
}

/// Whether the pattern is a NaN: all exponent bits set and a fraction other
/// than zero.
pub open spec fn is_nan(bits: u64) -> bool {
    magnitude(bits) > 0x7ff0_0000_0000_0000
}

/// An integer that orders the patterns as the doubles they encode are
/// ordered. Among patterns of one sign a larger magnitude is further from
/// zero, and both zeros have rank 0.
pub open spec fn rank(bits: u64) -> int {
    if is_negative(bits) {
        -magnitude(bits)
    } else {
        magnitude(bits)
    }
}

/// `a < b` as doubles: false when either is a NaN.
pub open spec fn less(a: u64, b: u64) -> bool {
    !is_nan(a) && !is_nan(b) && rank(a) < rank(b)
}

/// `a == b` as doubles: false when either is a NaN, true of the two zeros.
pub open spec fn equal(a: u64, b: u64) -> bool {
    !is_nan(a) && !is_nan(b) && rank(a) == rank(b)
}

/// `a <= b` as doubles.
pub open spec fn less_equal(a: u64, b: u64) -> bool {
    less(a, b) || equal(a, b)
}

/// The pattern with the opposite sign.
pub open spec fn negated(bits: u64) -> u64 {
    if is_negative(bits) {
        (bits - 0x8000_0000_0000_0000) as u64
    } else {
        (bits + 0x8000_0000_0000_0000) as u64
    }
}

/// Whether `a < b` holds of the doubles.
pub fn number_less(a: u64, b: u64) -> (r: bool)
    ensures
        r == less(a, b),
{
    let ma: u64 = a % SIGN;
    let mb: u64 = b % SIGN;
    if ma > INFINITY || mb > INFINITY {
        false
    } else if a >= SIGN {
        if b >= SIGN {
            ma > mb
        } else {
            ma > 0 || mb > 0
        }
    } else {
        b < SIGN && ma < mb
    }
}

/// Whether `a == b` holds of the doubles.
pub fn number_equal(a: u64, b: u64) -> (r: bool)
    ensures
        r == equal(a, b),
{
    let ma: u64 = a % SIGN;
    let mb: u64 = b % SIGN;
    if ma > INFINITY || mb > INFINITY {
        false
    } else if ma == 0 && mb == 0 {
        true
    } else {
        a == b
    }
}

/// Whether `a <= b` holds of the doubles.
pub fn number_less_equal(a: u64, b: u64) -> (r: bool)
    ensures
        r == less_equal(a, b),
{
    number_less(a, b) || number_equal(a, b)
}

/// The double with the opposite sign.
pub fn number_negate(bits: u64) -> (r: u64)
    ensures
        r == negated(bits),
        magnitude(r) == magnitude(bits),
        is_negative(r) != is_negative(bits),
{
    if bits >= SIGN {
        bits - SIGN
    } else {
        bits + SIGN
    }
}

/// The order of numbers is strict: nothing is below itself, and of two
/// numbers at most one is below the other.
pub proof fn less_is_strict(a: u64, b: u64)
    ensures
        !less(a, a),
        less(a, b) ==> !less(b, a),
        less(a, b) ==> !equal(a, b),
{
}

/// The order of numbers is transitive.
pub proof fn less_is_transitive(a: u64, b: u64, c: u64)
    requires
        less(a, b),
        less(b, c),
    ensures
        less(a, c),
{
}

/// Negation reverses the order and undoes itself.
pub proof fn negation_reverses(a: u64, b: u64)
    ensures
        negated(negated(a)) == a,
        less(a, b) == less(negated(b), negated(a)),
        is_nan(negated(a)) == is_nan(a),
{
}

} // verus!
