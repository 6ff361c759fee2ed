//! Equality of binary64 values given as bit patterns, as `==` on `f64` decides it.
use vstd::prelude::*;

verus! {

/// Mask of every bit but the sign.
pub const MAGNITUDE_MASK: u64 = 0x7fff_ffff_ffff_ffff;

/// Mask of the exponent field.
pub const EXPONENT_MASK: u64 = 0x7ff0_0000_0000_0000;

/// Mask of the fraction field.
pub const FRACTION_MASK: u64 = 0x000f_ffff_ffff_ffff;

/// The value is a NaN: all exponent bits set and a nonzero fraction.
pub open spec fn is_nan(b: u64) -> bool {
    (b & EXPONENT_MASK) == EXPONENT_MASK && (b & FRACTION_MASK) != 0
}

/// The value is +0.0 or -0.0.
pub open spec fn is_zero(b: u64) -> bool {
    (b & MAGNITUDE_MASK) == 0
}

/// Floating-point equality: the two zeros are equal, a NaN equals nothing,
/// and any other value equals only itself.
pub open spec fn same_value(a: u64, b: u64) -> bool {
    (is_zero(a) && is_zero(b)) || (a == b && !is_nan(a))
}

/// Decides `same_value` on two bit patterns.
pub fn coord_eq(a: u64, b: u64) -> (r: bool)
    ensures
        r == same_value(a, b),
{
    let both_zero = (a & MAGNITUDE_MASK) == 0 && (b & MAGNITUDE_MASK) == 0;
    let a_nan = (a & EXPONENT_MASK) == EXPONENT_MASK && (a & FRACTION_MASK) != 0;
    both_zero || (a == b && !a_nan)
}

} // verus!
