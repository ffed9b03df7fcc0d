//! IEEE-754 binary64 numbers, held as their bit patterns.
//!
//! Sign, zero test, NaN test, negation, equality and ordering are functions of
//! the bits alone and are decided here. Sums, differences, products and
//! quotients are computed by the host.

use vstd::prelude::*;

verus! {

/// The sign bit.
pub const SIGN: u64 = 0x8000_0000_0000_0000;

/// The bits of positive infinity: every pattern whose magnitude is larger is a NaN.
pub const INFINITY: u64 = 0x7ff0_0000_0000_0000;

/// The bits of `x` without the sign bit.
pub open spec fn magnitude(x: u64) -> u64 {
    if x >= SIGN {
        (x - SIGN) as u64
    } else {
        x
    }
}

/// `x` is not a number.
pub open spec fn spec_is_nan(x: u64) -> bool {
    magnitude(x) > INFINITY
}

/// `x` is positive or negative zero.
pub open spec fn spec_is_zero(x: u64) -> bool {
    magnitude(x) == 0
}

/// The position of a number on the extended real line: two numbers that are
/// not NaN are ordered as their positions are, and both zeros share one.
pub open spec fn position(x: u64) -> int {
    if x >= SIGN {
        -(magnitude(x) as int)
    } else {
        x as int
    }
}

/// `a < b` as IEEE-754 defines it: false as soon as one side is a NaN.
pub open spec fn spec_less(a: u64, b: u64) -> bool {
    !spec_is_nan(a) && !spec_is_nan(b) && position(a) < position(b)
}

/// `a == b` as IEEE-754 defines it: a NaN equals nothing, the two zeros are equal.
pub open spec fn spec_equal(a: u64, b: u64) -> bool {
    !spec_is_nan(a) && !spec_is_nan(b) && position(a) == position(b)
}

/// `a <= b` as IEEE-754 defines it.
pub open spec fn spec_less_equal(a: u64, b: u64) -> bool {
    spec_less(a, b) || spec_equal(a, b)
}

/// `-x`: the same magnitude with the opposite sign, also for zeros, infinities and NaNs.
pub open spec fn spec_negate(x: u64) -> u64 {
    if x >= SIGN {
        (x - SIGN) as u64
    } else {
        (x + SIGN) as u64
    }
}

/// The bits of `x` without the sign bit.
fn magnitude_of(x: u64) -> (r: u64)
    ensures
        r == magnitude(x),
{
    if x >= SIGN {
        x - SIGN
    } else {
        x
    }
}

/// Whether `x` is not a number.
#[verifier::when_used_as_spec(spec_is_nan)]
pub fn is_nan(x: u64) -> (r: bool)
    ensures
        r == spec_is_nan(x),
{
    magnitude_of(x) > INFINITY
}

/// Whether `x` is positive or negative zero.
#[verifier::when_used_as_spec(spec_is_zero)]
pub fn is_zero(x: u64) -> (r: bool)
    ensures
        r == spec_is_zero(x),
{
    magnitude_of(x) == 0
}

/// `-x`.
#[verifier::when_used_as_spec(spec_negate)]
pub fn negate(x: u64) -> (r: u64)
    ensures
        r == spec_negate(x),
{
    if x >= SIGN {
        x - SIGN
    } else {
        x + SIGN
    }
}

/// Whether `a < b`.
#[verifier::when_used_as_spec(spec_less)]
pub fn less(a: u64, b: u64) -> (r: bool)
    ensures
        r == spec_less(a, b),
{
    if is_nan(a) || is_nan(b) {
        false
    } else if a >= SIGN {
        if b >= SIGN {
            // both negative: the larger magnitude is the smaller number
            magnitude_of(a) > magnitude_of(b)
        } else {
            // negative against non-negative: less unless both are zero
            magnitude_of(a) > 0 || b > 0
        }
    } else if b >= SIGN {
        false
    } else {
        a < b
    }
}

/// Whether `a == b`.
#[verifier::when_used_as_spec(spec_equal)]
pub fn equal(a: u64, b: u64) -> (r: bool)
    ensures
        r == spec_equal(a, b),
{
    if is_nan(a) || is_nan(b) {
        false
    } else {
        a == b || (magnitude_of(a) == 0 && magnitude_of(b) == 0)
    }
}

/// Whether `a <= b`.
#[verifier::when_used_as_spec(spec_less_equal)]
pub fn less_equal(a: u64, b: u64) -> (r: bool)
    ensures
        r == spec_less_equal(a, b),
{
    less(a, b) || equal(a, b)
}

} // verus!
