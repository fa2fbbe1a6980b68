//! Ordering and equality for IEEE-754 values carried as raw bit patterns.
//!
//! Scores and vector components travel through this crate as `u32` (single
//! precision) or `u64` (double precision) bit patterns.  The comparisons
//! below reproduce, as pure integer logic on the bits, the comparison that
//! the hardware performs on the encoded values: sign-magnitude order, both
//! zeroes equal, and no NaN comparing less than, equal to, or greater than
//! anything.

use vstd::prelude::*;

verus! {

/// Magnitude (everything but the sign bit) of a single-precision pattern.
pub open spec fn f32_mag(bits: u32) -> int {
    (bits as int) % 0x8000_0000
}

/// Sign bit of a single-precision pattern: 1 for negative.
pub open spec fn f32_sign(bits: u32) -> int {
    (bits as int) / 0x8000_0000
}

/// A single-precision pattern encodes NaN when the exponent field is all
/// ones and the fraction field is non-zero.
pub open spec fn f32_is_nan(bits: u32) -> bool {
    (f32_mag(bits) / 0x0080_0000) == 0xFF && (bits % 0x0080_0000) != 0
}

/// IEEE equality on single-precision patterns: NaN equals nothing, the two
/// zeroes equal each other, every other value equals only its own pattern.
pub open spec fn f32_eq(a: u32, b: u32) -> bool {
    if f32_is_nan(a) || f32_is_nan(b) {
        false
    } else if f32_mag(a) == 0 && f32_mag(b) == 0 {
        true
    } else {
        a == b
    }
}

/// IEEE `<` on single-precision patterns: sign-magnitude order, false on
/// any NaN operand and on the pair of zeroes.
pub open spec fn f32_lt(a: u32, b: u32) -> bool {
    if f32_is_nan(a) || f32_is_nan(b) {
        false
    } else if f32_mag(a) == 0 && f32_mag(b) == 0 {
        false
    } else if f32_sign(a) != f32_sign(b) {
        f32_sign(a) == 1
    } else if f32_sign(a) == 0 {
        f32_mag(a) < f32_mag(b)
    } else {
        f32_mag(a) > f32_mag(b)
    }
}

/// IEEE `<=` on single-precision patterns.
pub open spec fn f32_le(a: u32, b: u32) -> bool {
    f32_lt(a, b) || f32_eq(a, b)
}

/// Whether a single-precision pattern encodes NaN.
pub fn f32_bits_is_nan(bits: u32) -> (r: bool)
    ensures
        r == f32_is_nan(bits),
{
    ((bits % 0x8000_0000) / 0x0080_0000) == 0xFF && (bits % 0x0080_0000) != 0
}

/// IEEE equality of the values behind two single-precision patterns.
pub fn f32_bits_eq(a: u32, b: u32) -> (r: bool)
    ensures
        r == f32_eq(a, b),
{
    if f32_bits_is_nan(a) || f32_bits_is_nan(b) {
        false
    } else if a % 0x8000_0000 == 0 && b % 0x8000_0000 == 0 {
        true
    } else {
        a == b
    }
}

/// IEEE `<` of the values behind two single-precision patterns.
pub fn f32_bits_lt(a: u32, b: u32) -> (r: bool)
    ensures
        r == f32_lt(a, b),
{
    if f32_bits_is_nan(a) || f32_bits_is_nan(b) {
        false
    } else {
        let ma: u32 = a % 0x8000_0000;
        let mb: u32 = b % 0x8000_0000;
        let sa: u32 = a / 0x8000_0000;
        let sb: u32 = b / 0x8000_0000;
        if ma == 0 && mb == 0 {
            false
        } else if sa != sb {
            sa == 1
        } else if sa == 0 {
            ma < mb
        } else {
            ma > mb
        }
    }
}

/// Magnitude (everything but the sign bit) of a double-precision pattern.
pub open spec fn f64_mag(bits: u64) -> int {
    (bits as int) % 0x8000_0000_0000_0000
}

/// Sign bit of a double-precision pattern: 1 for negative.
pub open spec fn f64_sign(bits: u64) -> int {
    (bits as int) / 0x8000_0000_0000_0000
}

/// A double-precision pattern encodes NaN when the exponent field is all
/// ones and the fraction field is non-zero.
pub open spec fn f64_is_nan(bits: u64) -> bool {
    (f64_mag(bits) / 0x0010_0000_0000_0000) == 0x7FF && (bits % 0x0010_0000_0000_0000) != 0
}

/// IEEE equality on double-precision patterns.
pub open spec fn f64_eq(a: u64, b: u64) -> bool {
    if f64_is_nan(a) || f64_is_nan(b) {
        false
    } else if f64_mag(a) == 0 && f64_mag(b) == 0 {
        true
    } else {
        a == b
    }
}

/// IEEE `<` on double-precision patterns.
pub open spec fn f64_lt(a: u64, b: u64) -> bool {
    if f64_is_nan(a) || f64_is_nan(b) {
        false
    } else if f64_mag(a) == 0 && f64_mag(b) == 0 {
        false
    } else if f64_sign(a) != f64_sign(b) {
        f64_sign(a) == 1
    } else if f64_sign(a) == 0 {
        f64_mag(a) < f64_mag(b)
    } else {
        f64_mag(a) > f64_mag(b)
    }
}

/// IEEE `<=` on double-precision patterns.
pub open spec fn f64_le(a: u64, b: u64) -> bool {
    f64_lt(a, b) || f64_eq(a, b)
}

/// Whether a double-precision pattern encodes NaN.
pub fn f64_bits_is_nan(bits: u64) -> (r: bool)
    ensures
        r == f64_is_nan(bits),
{
    ((bits % 0x8000_0000_0000_0000) / 0x0010_0000_0000_0000) == 0x7FF && (bits
        % 0x0010_0000_0000_0000) != 0
}

/// IEEE equality of the values behind two double-precision patterns.
pub fn f64_bits_eq(a: u64, b: u64) -> (r: bool)
    ensures
        r == f64_eq(a, b),
{
    if f64_bits_is_nan(a) || f64_bits_is_nan(b) {
        false
    } else if a % 0x8000_0000_0000_0000 == 0 && b % 0x8000_0000_0000_0000 == 0 {
        true
    } else {
        a == b
    }
}

/// IEEE `<` of the values behind two double-precision patterns.
pub fn f64_bits_lt(a: u64, b: u64) -> (r: bool)
    ensures
        r == f64_lt(a, b),
{
    if f64_bits_is_nan(a) || f64_bits_is_nan(b) {
        false
    } else {
        let ma: u64 = a % 0x8000_0000_0000_0000;
        let mb: u64 = b % 0x8000_0000_0000_0000;
        let sa: u64 = a / 0x8000_0000_0000_0000;
        let sb: u64 = b / 0x8000_0000_0000_0000;
        if ma == 0 && mb == 0 {
            false
        } else if sa != sb {
            sa == 1
        } else if sa == 0 {
            ma < mb
        } else {
            ma > mb
        }
    }
}

/// IEEE `<=` of the values behind two double-precision patterns.
pub fn f64_bits_le(a: u64, b: u64) -> (r: bool)
    ensures
        r == f64_le(a, b),
{
    let lt = f64_bits_lt(a, b);
    let eq = f64_bits_eq(a, b);
    lt || eq
}

/// On patterns free of NaN, `f32_lt` is transitive.
pub proof fn lemma_f32_lt_trans(a: u32, b: u32, c: u32)
    requires
        f32_lt(a, b),
        f32_lt(b, c),
    ensures
        f32_lt(a, c),
{
}

/// On patterns free of NaN, `<=` is the negation of the reversed `<`.
pub proof fn lemma_f32_le_total(a: u32, b: u32)
    requires
        !f32_is_nan(a),
        !f32_is_nan(b),
    ensures
        f32_le(a, b) <==> !f32_lt(b, a),
{
}

} // verus!
