//! How numbers compare by their bits.
//!
//! `S` below is the sign bit; what is left of a bit pattern without it orders the
//! magnitudes, up to that of infinity.

use vstd::prelude::*;

use crate::number::{
    at_most32, at_most64, is_nan32, is_nan64, less32, less64, order32, order64, total_order32,
    total_order64, INFINITY_SINGLE, ONE, ONE_SINGLE, ZERO, ZERO_SINGLE,
};

verus! {

/// What lies above infinity in magnitude is no number.
pub proof fn nans_lie_above_infinity(a: u64, b: u32)
    ensures
        is_nan64(a) <==> (0x7ff0_0000_0000_0000 < a < 0x8000_0000_0000_0000 || a
            > 0xfff0_0000_0000_0000),
        is_nan32(b) <==> (0x7f80_0000 < b < 0x8000_0000 || b > 0xff80_0000),
{
}

/// Positive numbers compare as their bits do.
pub proof fn positive_numbers_compare_by_bits(a: u64, b: u64)
    requires
        a <= 0x7ff0_0000_0000_0000,
        b <= 0x7ff0_0000_0000_0000,
    ensures
        less64(a, b) <==> a < b,
        at_most64(a, b) <==> a <= b,
        order64(a) < order64(b) <==> a < b,
{
}

/// Negative numbers compare the other way round.
pub proof fn negative_numbers_compare_in_reverse(a: u64, b: u64)
    requires
        0x8000_0000_0000_0000 <= a <= 0xfff0_0000_0000_0000,
        0x8000_0000_0000_0000 <= b <= 0xfff0_0000_0000_0000,
    ensures
        less64(a, b) <==> b < a,
        at_most64(a, b) <==> b <= a,
        order64(a) < order64(b) <==> b < a,
{
}

/// A negative number is below a positive one; the two zeros are equal.
pub proof fn signs_decide(a: u64, b: u64)
    requires
        0x8000_0000_0000_0000 <= a <= 0xfff0_0000_0000_0000,
        b <= 0x7ff0_0000_0000_0000,
    ensures
        less64(a, b) <==> !(a == 0x8000_0000_0000_0000 && b == 0),
        at_most64(a, b),
        !less64(b, a),
        at_most64(b, a) <==> a == 0x8000_0000_0000_0000 && b == 0,
        order64(a) < order64(b) <==> !(a == 0x8000_0000_0000_0000 && b == 0),
        order64(b) < order64(a) <==> false,
{
}

/// What is no number compares with nothing.
pub proof fn nans_compare_with_nothing(a: u64, b: u64)
    requires
        is_nan64(a) || is_nan64(b),
    ensures
        !less64(a, b),
        !at_most64(a, b),
{
}

/// Positive single-precision numbers compare as their bits do.
pub proof fn positive_singles_compare_by_bits(a: u32, b: u32)
    requires
        a <= 0x7f80_0000,
        b <= 0x7f80_0000,
    ensures
        less32(a, b) <==> a < b,
        at_most32(a, b) <==> a <= b,
        order32(a) < order32(b) <==> a < b,
{
}

/// Negative single-precision numbers compare the other way round.
pub proof fn negative_singles_compare_in_reverse(a: u32, b: u32)
    requires
        0x8000_0000 <= a <= 0xff80_0000,
        0x8000_0000 <= b <= 0xff80_0000,
    ensures
        less32(a, b) <==> b < a,
        at_most32(a, b) <==> b <= a,
        order32(a) < order32(b) <==> b < a,
{
}

/// A negative single-precision number is below a positive one; the two zeros are
/// equal.
pub proof fn signs_decide_singles(a: u32, b: u32)
    requires
        0x8000_0000 <= a <= 0xff80_0000,
        b <= 0x7f80_0000,
    ensures
        less32(a, b) <==> !(a == 0x8000_0000 && b == 0),
        at_most32(a, b),
        !less32(b, a),
        at_most32(b, a) <==> a == 0x8000_0000 && b == 0,
{
}

/// What is no single-precision number compares with nothing.
pub proof fn nan_singles_compare_with_nothing(a: u32, b: u32)
    requires
        is_nan32(a) || is_nan32(b),
    ensures
        !less32(a, b),
        !at_most32(a, b),
{
}

/// The total order goes by the sign, then by the magnitude, and tells all bit
/// patterns apart.
pub proof fn the_total_order_tells_all_apart(a: u64, b: u64)
    ensures
        a < 0x8000_0000_0000_0000 && b < 0x8000_0000_0000_0000 ==> (total_order64(a)
            < total_order64(b) <==> a < b),
        a >= 0x8000_0000_0000_0000 && b >= 0x8000_0000_0000_0000 ==> (total_order64(a)
            < total_order64(b) <==> b < a),
        a >= 0x8000_0000_0000_0000 && b < 0x8000_0000_0000_0000 ==> total_order64(a)
            < total_order64(b),
        total_order64(a) == total_order64(b) <==> a == b,
        less64(a, b) ==> total_order64(a) < total_order64(b),
{
}

/// The total order of single-precision bit patterns goes by the sign, then by the
/// magnitude, and tells all of them apart.
pub proof fn the_total_order_tells_all_singles_apart(a: u32, b: u32)
    ensures
        a < 0x8000_0000 && b < 0x8000_0000 ==> (total_order32(a) < total_order32(b) <==> a < b),
        a >= 0x8000_0000 && b >= 0x8000_0000 ==> (total_order32(a) < total_order32(b) <==> b
            < a),
        a >= 0x8000_0000 && b < 0x8000_0000 ==> total_order32(a) < total_order32(b),
        total_order32(a) == total_order32(b) <==> a == b,
{
}

/// The named numbers: one is the exponent bias, infinity the largest exponent.
pub proof fn named_numbers_are_what_they_say()
    ensures
        ZERO == 0,
        ONE == 1023 * 0x10_0000_0000_0000,
        ZERO_SINGLE == 0,
        ONE_SINGLE == 127 * 0x80_0000,
        INFINITY_SINGLE == 255 * 0x80_0000,
{
}

} // verus!
