//! Order and sign of IEEE-754 values, read off their bit patterns.
//!
//! The engine never computes with floating-point values itself. A sample is
//! carried as the 32-bit pattern of a binary32 value, an energy level as the
//! 64-bit pattern of a binary64 value, and every decision that depends on how
//! two such values compare is taken here, on the patterns alone.
//!
//! A pattern is a sign bit followed by a magnitude. Magnitudes above that of
//! infinity encode NaN. Among the other patterns the encoded values are ordered
//! as the signed magnitudes are, with the two zeros equal.
use vstd::prelude::*;

verus! {

/// Sign bit of a binary32 pattern.
pub const SIGN32: u32 = 0x8000_0000;

/// Pattern of positive infinity in binary32.
pub const INFINITY32: u32 = 0x7f80_0000;

/// Pattern of `0.0` in binary32.
pub const ZERO32: u32 = 0;

/// Pattern of `1.0` in binary32.
pub const ONE32: u32 = 0x3f80_0000;

/// Pattern of `-1.0` in binary32.
pub const MINUS_ONE32: u32 = 0xbf80_0000;

/// Sign bit of a binary64 pattern.
pub const SIGN64: u64 = 0x8000_0000_0000_0000;

/// Pattern of positive infinity in binary64.
pub const INFINITY64: u64 = 0x7ff0_0000_0000_0000;

/// The pattern with its sign bit cleared, as a number.
pub open spec fn magnitude32(w: u32) -> int {
    if w >= SIGN32 {
        w - SIGN32
    } else {
        w as int
    }
}

/// The sign bit is set.
pub open spec fn sign32(w: u32) -> bool {
    w >= SIGN32
}

/// The pattern encodes no number.
pub open spec fn is_nan32(w: u32) -> bool {
    magnitude32(w) > INFINITY32
}

/// The pattern encodes a number that is neither infinite nor NaN.
pub open spec fn is_finite32(w: u32) -> bool {
    magnitude32(w) < INFINITY32
}

/// Position of the encoded value on the number line: the magnitude, negated
/// where the sign bit is set. Both zeros stand at 0.
pub open spec fn rank32(w: u32) -> int {
    if sign32(w) {
        -magnitude32(w)
    } else {
        magnitude32(w)
    }
}

/// The value of `a` is less than the value of `b`. False where either is NaN.
pub open spec fn lt32(a: u32, b: u32) -> bool {
    !is_nan32(a) && !is_nan32(b) && rank32(a) < rank32(b)
}

/// The value of `a` is less than or equal to the value of `b`. False where
/// either is NaN.
pub open spec fn le32(a: u32, b: u32) -> bool {
    !is_nan32(a) && !is_nan32(b) && rank32(a) <= rank32(b)
}

/// The value clamped to the interval from -1 to 1. NaN is left as it is.
pub open spec fn clamp_unit32(w: u32) -> u32 {
    if lt32(ONE32, w) {
        ONE32
    } else if lt32(w, MINUS_ONE32) {
        MINUS_ONE32
    } else {
        w
    }
}

/// The absolute value is greater than 1.
pub open spec fn exceeds_unit32(w: u32) -> bool {
    !is_nan32(w) && magnitude32(w) > ONE32
}

/// The pattern with its sign bit cleared, as a number.
pub open spec fn magnitude64(w: u64) -> int {
    if w >= SIGN64 {
        w - SIGN64
    } else {
        w as int
    }
}

/// The sign bit is set.
pub open spec fn sign64(w: u64) -> bool {
    w >= SIGN64
}

/// The pattern encodes no number.
pub open spec fn is_nan64(w: u64) -> bool {
    magnitude64(w) > INFINITY64
}

/// Position of the encoded value on the number line.
pub open spec fn rank64(w: u64) -> int {
    if sign64(w) {
        -magnitude64(w)
    } else {
        magnitude64(w)
    }
}

/// The value of `a` is less than the value of `b`. False where either is NaN.
pub open spec fn lt64(a: u64, b: u64) -> bool {
    !is_nan64(a) && !is_nan64(b) && rank64(a) < rank64(b)
}

/// The value of `a` is less than or equal to the value of `b`. False where
/// either is NaN.
pub open spec fn le64(a: u64, b: u64) -> bool {
    !is_nan64(a) && !is_nan64(b) && rank64(a) <= rank64(b)
}

/// Clears the sign bit.
pub fn abs32(w: u32) -> (r: u32)
    ensures
        r == magnitude32(w),
        r < SIGN32,
{
    if w >= SIGN32 {
        w - SIGN32
    } else {
        w
    }
}

/// Tells whether the pattern encodes NaN.
pub fn nan32(w: u32) -> (r: bool)
    ensures
        r == is_nan32(w),
{
    abs32(w) > INFINITY32
}

/// Tells whether the pattern encodes a finite number.
pub fn finite32(w: u32) -> (r: bool)
    ensures
        r == is_finite32(w),
{
    abs32(w) < INFINITY32
}

/// Decides `a < b` on the encoded values.
pub fn less32(a: u32, b: u32) -> (r: bool)
    ensures
        r == lt32(a, b),
{
    let ma: u32 = abs32(a);
    let mb: u32 = abs32(b);
    if ma > INFINITY32 || mb > INFINITY32 {
        false
    } else if a >= SIGN32 {
        if b >= SIGN32 {
            ma > mb
        } else {
            ma > 0 || mb > 0
        }
    } else {
        b < SIGN32 && ma < mb
    }
}

/// Decides `a <= b` on the encoded values.
pub fn less_eq32(a: u32, b: u32) -> (r: bool)
    ensures
        r == le32(a, b),
{
    let ma: u32 = abs32(a);
    let mb: u32 = abs32(b);
    if ma > INFINITY32 || mb > INFINITY32 {
        false
    } else if a >= SIGN32 {
        if b >= SIGN32 {
            ma >= mb
        } else {
            true
        }
    } else {
        if b >= SIGN32 {
            ma == 0 && mb == 0
        } else {
            ma <= mb
        }
    }
}

/// Clamps the encoded value to the interval from -1 to 1.
pub fn clamp32(w: u32) -> (r: u32)
    ensures
        r == clamp_unit32(w),
{
    if less32(ONE32, w) {
        ONE32
    } else if less32(w, MINUS_ONE32) {
        MINUS_ONE32
    } else {
        w
    }
}

/// Tells whether the absolute value is greater than 1.
pub fn clips32(w: u32) -> (r: bool)
    ensures
        r == exceeds_unit32(w),
{
    let m: u32 = abs32(w);
    m > ONE32 && m <= INFINITY32
}

/// Clears the sign bit.
pub fn abs64(w: u64) -> (r: u64)
    ensures
        r == magnitude64(w),
        r < SIGN64,
{
    if w >= SIGN64 {
        w - SIGN64
    } else {
        w
    }
}

/// Tells whether the pattern encodes NaN.
pub fn nan64(w: u64) -> (r: bool)
    ensures
        r == is_nan64(w),
{
    abs64(w) > INFINITY64
}

/// Decides `a < b` on the encoded values.
pub fn less64(a: u64, b: u64) -> (r: bool)
    ensures
        r == lt64(a, b),
{
    let ma: u64 = abs64(a);
    let mb: u64 = abs64(b);
    if ma > INFINITY64 || mb > INFINITY64 {
        false
    } else if a >= SIGN64 {
        if b >= SIGN64 {
            ma > mb
        } else {
            ma > 0 || mb > 0
        }
    } else {
        b < SIGN64 && ma < mb
    }
}

/// Decides `a <= b` on the encoded values.
pub fn less_eq64(a: u64, b: u64) -> (r: bool)
    ensures
        r == le64(a, b),
{
    let ma: u64 = abs64(a);
    let mb: u64 = abs64(b);
    if ma > INFINITY64 || mb > INFINITY64 {
        false
    } else if a >= SIGN64 {
        if b >= SIGN64 {
            ma >= mb
        } else {
            true
        }
    } else {
        if b >= SIGN64 {
            ma == 0 && mb == 0
        } else {
            ma <= mb
        }
    }
}

} // verus!
