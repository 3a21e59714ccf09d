//! Floating-point settings, held by their bit patterns.
//!
//! The library compares such values and never computes with them. The order of
//! IEEE 754 numbers is an order of integers that can be read off their bits, so
//! every comparison here is exact.

use vstd::prelude::*;

verus! {

/// A double-precision number: its IEEE 754 bits, by which it is compared, and
/// the decimal text by which messages show it.
#[derive(Debug, Clone, PartialEq, Eq)]
pub struct Real {
    pub bits: u64,
    pub text: String,
}

/// A single-precision number: its IEEE 754 bits and the text that shows it.
#[derive(Debug, Clone, PartialEq, Eq)]
pub struct Real32 {
    pub bits: u32,
    pub text: String,
}

/// The bits of a double-precision number without the sign.
pub open spec fn magnitude64(bits: u64) -> int {
    if bits < 0x8000_0000_0000_0000 {
        bits as int
    } else {
        bits - 0x8000_0000_0000_0000
    }
}

/// No number: the exponent is all ones and the fraction is not zero.
pub open spec fn is_nan64(bits: u64) -> bool {
    magnitude64(bits) > 0x7ff0_0000_0000_0000
}

/// An integer that orders as the numbers do; both zeros are 0.
pub open spec fn order64(bits: u64) -> int {
    if bits < 0x8000_0000_0000_0000 {
        magnitude64(bits)
    } else {
        -magnitude64(bits)
    }
}

/// `a < b` between two double-precision numbers; false when either is NaN.
pub open spec fn less64(a: u64, b: u64) -> bool {
    !is_nan64(a) && !is_nan64(b) && order64(a) < order64(b)
}

/// `a <= b` between two double-precision numbers; false when either is NaN.
pub open spec fn at_most64(a: u64, b: u64) -> bool {
    !is_nan64(a) && !is_nan64(b) && order64(a) <= order64(b)
}

/// The bits of a single-precision number without the sign.
pub open spec fn magnitude32(bits: u32) -> int {
    if bits < 0x8000_0000 {
        bits as int
    } else {
        bits - 0x8000_0000
    }
}

/// No number: the exponent is all ones and the fraction is not zero.
pub open spec fn is_nan32(bits: u32) -> bool {
    magnitude32(bits) > 0x7f80_0000
}

/// An integer that orders as the numbers do; both zeros are 0.
pub open spec fn order32(bits: u32) -> int {
    if bits < 0x8000_0000 {
        magnitude32(bits)
    } else {
        -magnitude32(bits)
    }
}

/// `a < b` between two single-precision numbers; false when either is NaN.
pub open spec fn less32(a: u32, b: u32) -> bool {
    !is_nan32(a) && !is_nan32(b) && order32(a) < order32(b)
}

/// `a <= b` between two single-precision numbers; false when either is NaN.
pub open spec fn at_most32(a: u32, b: u32) -> bool {
    !is_nan32(a) && !is_nan32(b) && order32(a) <= order32(b)
}

/// The bits of `0.0`.
pub const ZERO: u64 = 0;

/// The bits of `1.0`.
pub const ONE: u64 = 0x3ff0_0000_0000_0000;

/// The bits of the single-precision `0.0`.
pub const ZERO_SINGLE: u32 = 0;

/// The bits of the single-precision `1.0`.
pub const ONE_SINGLE: u32 = 0x3f80_0000;

/// The bits of the single-precision positive infinity.
pub const INFINITY_SINGLE: u32 = 0x7f80_0000;

/// Whether the bits are those of a NaN.
pub fn nan(bits: u64) -> (r: bool)
    ensures
        r == is_nan64(bits),
{
    let magnitude: u64 = if bits < 0x8000_0000_0000_0000 {
        bits
    } else {
        bits - 0x8000_0000_0000_0000
    };
    magnitude > 0x7ff0_0000_0000_0000
}

/// The integer that orders as the numbers do.
pub fn order(bits: u64) -> (r: i64)
    ensures
        r == order64(bits),
{
    if bits < 0x8000_0000_0000_0000 {
        bits as i64
    } else {
        -((bits - 0x8000_0000_0000_0000) as i64)
    }
}

/// `a < b`, as numbers.
pub fn less(a: u64, b: u64) -> (r: bool)
    ensures
        r == less64(a, b),
{
    !nan(a) && !nan(b) && order(a) < order(b)
}

/// `a <= b`, as numbers.
pub fn at_most(a: u64, b: u64) -> (r: bool)
    ensures
        r == at_most64(a, b),
{
    !nan(a) && !nan(b) && order(a) <= order(b)
}

/// Whether the bits are those of a NaN.
pub fn nan_single(bits: u32) -> (r: bool)
    ensures
        r == is_nan32(bits),
{
    let magnitude: u32 = if bits < 0x8000_0000 {
        bits
    } else {
        bits - 0x8000_0000
    };
    magnitude > 0x7f80_0000
}

/// The integer that orders as the numbers do.
pub fn order_single(bits: u32) -> (r: i32)
    ensures
        r == order32(bits),
{
    if bits < 0x8000_0000 {
        bits as i32
    } else {
        -((bits - 0x8000_0000) as i32)
    }
}

/// `a < b`, as numbers.
pub fn less_single(a: u32, b: u32) -> (r: bool)
    ensures
        r == less32(a, b),
{
    !nan_single(a) && !nan_single(b) && order_single(a) < order_single(b)
}

/// `a <= b`, as numbers.
pub fn at_most_single(a: u32, b: u32) -> (r: bool)
    ensures
        r == at_most32(a, b),
{
    !nan_single(a) && !nan_single(b) && order_single(a) <= order_single(b)
}

/// An integer that orders single-precision bit patterns totally: the negative
/// ones before the positive ones, by magnitude, NaNs at both ends.
pub open spec fn total_order32(bits: u32) -> int {
    if bits < 0x8000_0000 {
        bits as int
    } else {
        -magnitude32(bits) - 1
    }
}

/// The integer that orders single-precision bit patterns totally.
pub fn total_order_single(bits: u32) -> (r: i32)
    ensures
        r == total_order32(bits),
{
    if bits < 0x8000_0000 {
        bits as i32
    } else {
        -((bits - 0x8000_0000) as i32) - 1
    }
}

/// An integer that orders double-precision bit patterns totally.
pub open spec fn total_order64(bits: u64) -> int {
    if bits < 0x8000_0000_0000_0000 {
        bits as int
    } else {
        -magnitude64(bits) - 1
    }
}

/// The integer that orders double-precision bit patterns totally.
pub fn total_order(bits: u64) -> (r: i64)
    ensures
        r == total_order64(bits),
{
    if bits < 0x8000_0000_0000_0000 {
        bits as i64
    } else {
        -((bits - 0x8000_0000_0000_0000) as i64) - 1
    }
}

/// Between numbers that are not NaN the total order refines the numeric one.
pub proof fn total_order_refines(a: u32, b: u32)
    requires
        less32(a, b),
    ensures
        total_order32(a) < total_order32(b),
{
}

impl Real {
    /// A number with these bits, shown as `text`.
    pub fn new(bits: u64, text: &str) -> (r: Self)
        ensures
            r.bits == bits,
            r.text@ == text@,
    {
        Real { bits, text: text.to_owned() }
    }
}

impl Real32 {
    /// A number with these bits, shown as `text`.
    pub fn new(bits: u32, text: &str) -> (r: Self)
        ensures
            r.bits == bits,
            r.text@ == text@,
    {
        Real32 { bits, text: text.to_owned() }
    }
}

} // verus!
