//! Double-precision values handled as raw IEEE-754 bit patterns.
//!
//! Float columns store every value as the 64-bit pattern of the
//! corresponding double. The orderings and NaN tests that the running
//! statistics need are defined directly on the patterns, which keeps the
//! logic in integer arithmetic: the sign bit flips the order of the
//! magnitude bits, and the two zero encodings compare as equal, exactly
//! as `<` behaves on doubles.

use vstd::prelude::*;

verus! {

/// Exponent and mantissa of a double's bit pattern: everything below the
/// sign bit.
pub open spec fn f64_magnitude(bits: u64) -> u64 {
    bits & 0x7fff_ffff_ffff_ffff
}

/// The sign bit of a double's bit pattern.
pub open spec fn f64_sign(bits: u64) -> bool {
    bits >> 63 == 1
}

/// The pattern encodes a NaN: exponent all ones and a non-zero mantissa.
pub open spec fn is_nan_bits(bits: u64) -> bool {
    (bits >> 52) & 0x7ff == 0x7ff && bits & 0xf_ffff_ffff_ffff != 0
}

/// Order key of a double: its magnitude, negated when the sign bit is
/// set. Both zero encodings get the key 0, so `-0.0` and `+0.0` compare
/// as equal, as `<` on doubles has it.
pub open spec fn f64_key(bits: u64) -> int {
    if f64_sign(bits) {
        -(f64_magnitude(bits) as int)
    } else {
        f64_magnitude(bits) as int
    }
}

/// Strict order on non-NaN doubles, stated over their bit patterns.
pub open spec fn f64_lt_bits(a: u64, b: u64) -> bool {
    f64_key(a) < f64_key(b)
}

/// Whether the pattern encodes a NaN.
pub fn f64_is_nan(bits: u64) -> (r: bool)
    ensures
        r == is_nan_bits(bits),
{
    (bits >> 52) & 0x7ff == 0x7ff && bits & 0xf_ffff_ffff_ffff != 0
}

/// Whether the double encoded by `a` is strictly below the one encoded
/// by `b`, for non-NaN patterns.
pub fn f64_lt(a: u64, b: u64) -> (r: bool)
    ensures
        r == f64_lt_bits(a, b),
{
    let sa: bool = a >> 63 == 1;
    let sb: bool = b >> 63 == 1;
    let ma: u64 = a & 0x7fff_ffff_ffff_ffff;
    let mb: u64 = b & 0x7fff_ffff_ffff_ffff;
    if sa && sb {
        mb < ma
    } else if sa && !sb {
        !(ma == 0 && mb == 0)
    } else if !sa && sb {
        false
    } else {
        ma < mb
    }
}

} // verus!
