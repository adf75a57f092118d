//! Single-precision floats held as their IEEE-754 bit patterns.
use vstd::prelude::*;

verus! {

/// The sign bit of a single-precision float.
pub const SIGN_BIT: u32 = 0x8000_0000;

/// The bit pattern of the largest magnitude that is not a NaN (infinity).
pub const INFINITY_BITS: u32 = 0x7f80_0000;

/// The bit pattern of `-x` given that of `x`: negation flips the sign bit alone.
pub open spec fn neg_bits(b: u32) -> u32 {
    if b < SIGN_BIT {
        (b + SIGN_BIT) as u32
    } else {
        (b - SIGN_BIT) as u32
    }
}

/// The magnitude bits of a float (its bit pattern with the sign cleared).
pub open spec fn magnitude(b: u32) -> int {
    if b < SIGN_BIT {
        b as int
    } else {
        b - SIGN_BIT
    }
}

/// Whether the bit pattern encodes a NaN.
pub open spec fn is_nan_bits(b: u32) -> bool {
    magnitude(b) > INFINITY_BITS
}

/// An integer that orders non-NaN floats as their values do: on non-negative floats the
/// bit patterns increase with the value, on negative ones they decrease, and both zeros
/// rank equal.
pub open spec fn rank(b: u32) -> int {
    if b < SIGN_BIT {
        b as int
    } else {
        -magnitude(b)
    }
}

/// Whether the float is not below zero (`+0.0`, `-0.0` or positive).
pub open spec fn is_non_negative_bits(b: u32) -> bool {
    rank(b) >= 0
}

/// Negates a float given by its bit pattern.
pub fn negate(b: u32) -> (r: u32)
    ensures
        r == neg_bits(b),
{
    if b < SIGN_BIT {
        b + SIGN_BIT
    } else {
        b - SIGN_BIT
    }
}

/// Whether float `a` is strictly smaller than float `b`, neither being a NaN.
pub fn less_than(a: u32, b: u32) -> (r: bool)
    requires
        !is_nan_bits(a),
        !is_nan_bits(b),
    ensures
        r == (rank(a) < rank(b)),
{
    let a_neg = a >= SIGN_BIT;
    let b_neg = b >= SIGN_BIT;
    if !a_neg && !b_neg {
        a < b
    } else if a_neg && b_neg {
        b < a
    } else if a_neg {
        // a <= -0.0 and b >= +0.0: only two zeros compare equal
        !(a == SIGN_BIT && b == 0)
    } else {
        false
    }
}

/// Negating twice gives back the same bit pattern.
pub proof fn lemma_neg_neg(b: u32)
    ensures
        neg_bits(neg_bits(b)) == b,
{
}

} // verus!
