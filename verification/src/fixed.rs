//! Q16.16 fixed-point arithmetic on `i32`.
//!
//! The integer `v` stands for the real number `v / 65536`. Sums and products
//! are formed exactly in wider integers and brought back into `i32` by
//! saturation, so no operation here can overflow.

use vstd::prelude::*;

verus! {

/// The fixed-point representation of the real number one.
pub const ONE: i32 = 65536;

/// The nearest `i32` to `v`: `v` itself when it fits, else the bound it passed.
pub open spec fn saturate(v: int) -> i32 {
    if v < i32::MIN {
        i32::MIN
    } else if v > i32::MAX {
        i32::MAX
    } else {
        v as i32
    }
}

/// The rectifier: `max(x, 0)`.
pub open spec fn rectify(x: int) -> int {
    if x > 0 {
        x
    } else {
        0
    }
}

/// A product of two fixed-point numbers, or a sum of such products, brought
/// back to one factor of scale: the floor of `v / 65536`.
pub open spec fn rescale(v: int) -> int {
    v / 65536
}

/// Rectification never reverses an order.
pub proof fn lemma_rectify_monotonic(x: int, y: int)
    requires
        x <= y,
    ensures
        rectify(x) <= rectify(y),
{
}

/// Saturation never reverses an order.
pub proof fn lemma_saturate_monotonic(x: int, y: int)
    requires
        x <= y,
    ensures
        saturate(x) <= saturate(y),
{
}

/// Rescaling never reverses an order.
pub proof fn lemma_rescale_monotonic(x: int, y: int)
    requires
        x <= y,
    ensures
        rescale(x) <= rescale(y),
{
}

/// Saturating conversion of a wide integer.
pub fn saturate_i128(v: i128) -> (r: i32)
    ensures
        r == saturate(v as int),
{
    if v < -2147483648 {
        i32::MIN
    } else if v > 2147483647 {
        i32::MAX
    } else {
        v as i32
    }
}

/// Saturating addition.
pub fn add_saturating(a: i32, b: i32) -> (r: i32)
    ensures
        r == saturate(a + b),
{
    let wide: i64 = a as i64 + b as i64;
    saturate_i128(wide as i128)
}

/// Floor division by the scale, exact on negative numbers too.
pub fn rescale_i128(v: i128) -> (r: i128)
    ensures
        r == rescale(v as int),
{
    if v >= 0 {
        v / 65536
    } else {
        let up: i128 = -(v + 1);
        -(up / 65536) - 1
    }
}

} // verus!
