//! Numbers are IEEE-754 binary64 values, carried as their 64-bit patterns.
//!
//! The predicates here decide equality, ordering and truthiness of two such
//! patterns exactly as the hardware comparison does, without going through a
//! floating-point type.
use vstd::prelude::*;

verus! {

/// The sign bit of a binary64 pattern.
pub const SIGN_BIT: u64 = 0x8000_0000_0000_0000;

/// The pattern of positive infinity: all exponent bits set, no fraction bits.
pub const INFINITY_BITS: u64 = 0x7FF0_0000_0000_0000;

/// The pattern of the number one.
pub const ONE_BITS: u64 = 0x3FF0_0000_0000_0000;

/// The pattern of positive zero.
pub const ZERO_BITS: u64 = 0;

/// The pattern with the sign bit cleared: the absolute value.
pub open spec fn magnitude(b: u64) -> int {
    if b >= SIGN_BIT {
        b - SIGN_BIT
    } else {
        b as int
    }
}

pub open spec fn is_negative(b: u64) -> bool {
    b >= SIGN_BIT
}

/// A NaN has every exponent bit set and a nonzero fraction.
pub open spec fn is_nan(b: u64) -> bool {
    magnitude(b) > INFINITY_BITS
}

/// Both zeros (positive and negative) have magnitude zero.
pub open spec fn is_zero(b: u64) -> bool {
    magnitude(b) == 0
}

/// `a == b` on the two numbers: NaN equals nothing, and the two zeros are equal.
pub open spec fn num_eq(a: u64, b: u64) -> bool {
    !is_nan(a) && !is_nan(b) && (a == b || (is_zero(a) && is_zero(b)))
}

/// Equality of numbers as values: the same bit pattern, or equal as floating
/// point (the two zeros). Unlike `num_eq` it is reflexive, NaN included.
pub open spec fn num_same(a: u64, b: u64) -> bool {
    a == b || num_eq(a, b)
}

/// An integer that orders non-NaN patterns as their values are ordered.
pub open spec fn order_key(b: u64) -> int {
    if is_negative(b) {
        -magnitude(b)
    } else {
        magnitude(b)
    }
}

/// `a < b` on the two numbers: false whenever either is NaN.
pub open spec fn num_lt(a: u64, b: u64) -> bool {
    !is_nan(a) && !is_nan(b) && order_key(a) < order_key(b)
}

/// `n != 0.0`: every number but the two zeros, NaN included.
pub open spec fn num_truthy(b: u64) -> bool {
    !is_zero(b)
}

fn magnitude_of(b: u64) -> (r: u64)
    ensures
        r == magnitude(b),
{
    if b >= SIGN_BIT {
        b - SIGN_BIT
    } else {
        b
    }
}

/// Whether the pattern is a NaN.
pub fn number_is_nan(b: u64) -> (r: bool)
    ensures
        r == is_nan(b),
{
    magnitude_of(b) > INFINITY_BITS
}

/// Floating-point equality of two patterns.
pub fn number_eq(a: u64, b: u64) -> (r: bool)
    ensures
        r == num_eq(a, b),
{
    if number_is_nan(a) || number_is_nan(b) {
        false
    } else {
        a == b || (magnitude_of(a) == 0 && magnitude_of(b) == 0)
    }
}

/// Equality of two numbers as values: equal patterns, or the two zeros.
pub fn number_same(a: u64, b: u64) -> (r: bool)
    ensures
        r == num_same(a, b),
{
    a == b || number_eq(a, b)
}

/// Floating-point `a < b` on two patterns.
pub fn number_lt(a: u64, b: u64) -> (r: bool)
    ensures
        r == num_lt(a, b),
{
    if number_is_nan(a) || number_is_nan(b) {
        return false;
    }
    let ma = magnitude_of(a);
    let mb = magnitude_of(b);
    let na = a >= SIGN_BIT;
    let nb = b >= SIGN_BIT;
    if na && nb {
        mb < ma
    } else if na {
        // a <= -0 <= b: strictly less unless both are zeros
        ma != 0 || mb != 0
    } else if nb {
        false
    } else {
        ma < mb
    }
}

/// Whether the number counts as true in a condition (`n != 0.0`).
pub fn number_is_truthy(b: u64) -> (r: bool)
    ensures
        r == num_truthy(b),
{
    magnitude_of(b) != 0
}

} // verus!
