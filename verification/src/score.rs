//! Corner scores as IEEE-754 single-precision bit patterns.
//!
//! A score travels through this crate as the 32 bits of the number it encodes.
//! Everything the detector needs from a score is its place in the numeric
//! order, and that can be read off the bits with integer arithmetic alone.

use vstd::prelude::*;

verus! {

/// The sign bit of a single-precision number.
pub const SIGN_BIT: u32 = 0x8000_0000;

/// The bit pattern of positive infinity; every larger magnitude is a NaN.
pub const INFINITY_BITS: u32 = 0x7F80_0000;

/// The bits of `bits` with the sign cleared.
pub open spec fn magnitude(bits: u32) -> int {
    if bits >= SIGN_BIT {
        bits - SIGN_BIT
    } else {
        bits as int
    }
}

/// Whether `bits` encodes a NaN, which has no place in the numeric order.
pub open spec fn is_nan(bits: u32) -> bool {
    magnitude(bits) > INFINITY_BITS
}

/// An integer that orders bit patterns as the numbers they encode are ordered.
///
/// For patterns `a` and `b` that are not NaN, the number encoded by `a` is less
/// than the one encoded by `b` exactly when `score_key(a) < score_key(b)`, and
/// the two are numerically equal exactly when the keys are equal. Both zeros
/// have key 0.
pub open spec fn score_key(bits: u32) -> int {
    if bits >= SIGN_BIT {
        -magnitude(bits)
    } else {
        bits as int
    }
}

/// Whether `bits` encodes a number greater than zero (infinity included).
pub open spec fn is_positive(bits: u32) -> bool {
    0 < bits <= INFINITY_BITS
}

/// Computes [`score_key`].
pub fn score_rank(bits: u32) -> (rank: i64)
    ensures
        rank == score_key(bits),
{
    if bits >= SIGN_BIT {
        let m: u32 = bits - SIGN_BIT;
        -(m as i64)
    } else {
        bits as i64
    }
}

/// Computes [`is_nan`].
pub fn score_is_nan(bits: u32) -> (nan: bool)
    ensures
        nan == is_nan(bits),
{
    if bits >= SIGN_BIT {
        bits - SIGN_BIT > INFINITY_BITS
    } else {
        bits > INFINITY_BITS
    }
}

/// Whether the first score is numerically no greater than the second.
pub fn score_le(a: u32, b: u32) -> (le: bool)
    ensures
        le == (score_key(a) <= score_key(b)),
{
    score_rank(a) <= score_rank(b)
}

} // verus!
