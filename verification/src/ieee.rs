//! IEEE-754 numbers, held as their bit patterns.
//!
//! The format stores binary32 and binary64 numbers. The codec never computes
//! with them: it copies them, compares them, and negates one. All three are
//! stated here over the bits, with the meaning that the standard gives to
//! equality: a NaN equals nothing, and the two zeros equal each other.

use vstd::prelude::*;

verus! {

/// The binary32 number 1.
pub const ONE32: u32 = 0x3f80_0000;

/// The binary32 number 0, with the sign clear.
pub const ZERO32: u32 = 0;

/// The sign bit of a binary32 number.
pub const SIGN32: u32 = 0x8000_0000;

/// The binary32 infinity with the sign clear; above it, up to the sign bit,
/// lie the NaNs.
pub const INFINITY32: u32 = 0x7f80_0000;

/// The binary64 number 1.
pub const ONE64: u64 = 0x3ff0_0000_0000_0000;

/// The sign bit of a binary64 number.
pub const SIGN64: u64 = 0x8000_0000_0000_0000;

/// The binary64 infinity with the sign clear.
pub const INFINITY64: u64 = 0x7ff0_0000_0000_0000;

/// Whether `a` is a binary32 NaN: all exponent bits set and a fraction that
/// is not zero, under either sign.
pub open spec fn is_nan32(a: u32) -> bool {
    (INFINITY32 < a && a < SIGN32) || SIGN32 + INFINITY32 < a
}

/// Whether `a` is one of the two binary32 zeros.
pub open spec fn is_zero32(a: u32) -> bool {
    a == ZERO32 || a == SIGN32
}

/// Equality of two binary32 numbers as the standard defines it.
pub open spec fn eq32(a: u32, b: u32) -> bool {
    !is_nan32(a) && !is_nan32(b) && (a == b || (is_zero32(a) && is_zero32(b)))
}

/// The binary32 number `a` with its sign flipped.
pub open spec fn neg32(a: u32) -> u32 {
    if a >= SIGN32 {
        (a - SIGN32) as u32
    } else {
        (a + SIGN32) as u32
    }
}

/// Two binary32 patterns that stand for the same number or are the same
/// pattern: they differ at most in the sign of a zero.
pub open spec fn same32(a: u32, b: u32) -> bool {
    a == b || (is_zero32(a) && is_zero32(b))
}

/// Whether `a` is a binary64 NaN.
pub open spec fn is_nan64(a: u64) -> bool {
    (INFINITY64 < a && a < SIGN64) || SIGN64 + INFINITY64 < a
}

/// Whether `a` is one of the two binary64 zeros.
pub open spec fn is_zero64(a: u64) -> bool {
    a == 0 || a == SIGN64
}

/// Equality of two binary64 numbers as the standard defines it.
pub open spec fn eq64(a: u64, b: u64) -> bool {
    !is_nan64(a) && !is_nan64(b) && (a == b || (is_zero64(a) && is_zero64(b)))
}

/// Compares two binary32 numbers.
pub fn binary32_eq(a: u32, b: u32) -> (r: bool)
    ensures
        r == eq32(a, b),
{
    let a_nan = (INFINITY32 < a && a < SIGN32) || a > 0xff80_0000;
    let b_nan = (INFINITY32 < b && b < SIGN32) || b > 0xff80_0000;
    let a_zero = a == ZERO32 || a == SIGN32;
    let b_zero = b == ZERO32 || b == SIGN32;
    !a_nan && !b_nan && (a == b || (a_zero && b_zero))
}

/// Flips the sign of a binary32 number.
pub fn binary32_neg(a: u32) -> (r: u32)
    ensures
        r == neg32(a),
{
    if a >= SIGN32 {
        a - SIGN32
    } else {
        a + SIGN32
    }
}

/// Compares two binary64 numbers.
pub fn binary64_eq(a: u64, b: u64) -> (r: bool)
    ensures
        r == eq64(a, b),
{
    let a_nan = (INFINITY64 < a && a < SIGN64) || a > 0xfff0_0000_0000_0000;
    let b_nan = (INFINITY64 < b && b < SIGN64) || b > 0xfff0_0000_0000_0000;
    let a_zero = a == 0 || a == SIGN64;
    let b_zero = b == 0 || b == SIGN64;
    !a_nan && !b_nan && (a == b || (a_zero && b_zero))
}

} // verus!
