//! Fixed-point numbers: every quantity of a grammar (angles, scale factors,
//! lengths, selection weights, generation gates) is an integer count of
//! millionths. Whole numbers that go round a range are here too.

use vstd::prelude::*;

verus! {

/// The fixed-point representation of the number one.
pub const ONE: i64 = 1_000_000;

/// The magnitude of an integer.
pub open spec fn magnitude(a: int) -> int {
    if a < 0 {
        -a
    } else {
        a
    }
}

/// The exact product of two fixed-point numbers, rounded toward zero to the
/// nearest millionth.
pub open spec fn product(a: int, b: int) -> int {
    let m = (magnitude(a) * magnitude(b)) / (ONE as int);
    if (a < 0) != (b < 0) {
        -m
    } else {
        m
    }
}

/// Clamps an integer into the symmetric range that a fixed-point number covers.
pub open spec fn saturate(x: int) -> int {
    if x > i64::MAX as int {
        i64::MAX as int
    } else if x < -(i64::MAX as int) {
        -(i64::MAX as int)
    } else {
        x
    }
}

/// What [`fixed_mul`] computes: the rounded product, saturated at the ends of
/// the representable range.
pub open spec fn spec_fixed_mul(a: int, b: int) -> int {
    saturate(product(a, b))
}

fn magnitude_of(a: i64) -> (m: u64)
    ensures
        m as int == magnitude(a as int),
{
    if a >= 0 {
        a as u64
    } else {
        let below: i64 = -(a + 1);
        (below as u64) + 1
    }
}

/// Multiplies two fixed-point numbers. The product is rounded toward zero and
/// saturates instead of overflowing.
pub fn fixed_mul(a: i64, b: i64) -> (r: i64)
    ensures
        r as int == spec_fixed_mul(a as int, b as int),
{
    let ma: u128 = magnitude_of(a) as u128;
    let mb: u128 = magnitude_of(b) as u128;
    assert(ma * mb <= 0x8000_0000_0000_0000u128 * 0x8000_0000_0000_0000u128) by (nonlinear_arith)
        requires
            ma <= 0x8000_0000_0000_0000u128,
            mb <= 0x8000_0000_0000_0000u128,
    ;
    let wide: u128 = ma * mb;
    let m: u128 = wide / 1_000_000u128;
    let negative = (a < 0) != (b < 0);
    let limit: u128 = 0x7fff_ffff_ffff_ffffu128;
    if m > limit {
        if negative {
            -i64::MAX
        } else {
            i64::MAX
        }
    } else {
        let small: i64 = m as i64;
        if negative {
            -small
        } else {
            small
        }
    }
}

/// The remainder of a division that rounds toward zero: it has the sign of
/// the number divided.
pub open spec fn remainder(a: int, b: int) -> int {
    if a >= 0 {
        a % magnitude(b)
    } else {
        -((-a) % magnitude(b))
    }
}

/// `val` brought into the range from `min` to `max` by going round: a value
/// below `min` comes in from `max` by as much as it lies below, one above
/// `max` from `min` by as much as it lies above, each taken as the remainder
/// by the width of the range.
pub open spec fn wrapped(val: int, min: int, max: int) -> int {
    if val < min {
        max + remainder(val - min, max - min)
    } else if val > max {
        min + remainder(val - max, max - min)
    } else {
        val
    }
}

fn remainder_of(a: i64, b: i64) -> (r: i64)
    requires
        b != 0,
        -0x1_0000_0000 <= a <= 0x1_0000_0000,
        -0x1_0000_0000 <= b <= 0x1_0000_0000,
    ensures
        r == remainder(a as int, b as int),
        -0x1_0000_0000 <= r <= 0x1_0000_0000,
{
    let width: i64 = if b < 0 {
        -b
    } else {
        b
    };
    if a >= 0 {
        a % width
    } else {
        -((-a) % width)
    }
}

/// Brings `val` into the range from `min` to `max` by going round. A range
/// of one number has no width to go round, so only that number can be
/// brought into it; and the result has to fit, which it always does where
/// `min` is not above `max`.
pub fn wrap(val: i32, min: i32, max: i32) -> (r: i32)
    requires
        min == max ==> val == min,
        i32::MIN <= wrapped(val as int, min as int, max as int) <= i32::MAX,
    ensures
        r == wrapped(val as int, min as int, max as int),
        min <= max ==> min <= r <= max,
{
    if val < min {
        let back = remainder_of(val as i64 - min as i64, max as i64 - min as i64);
        (max as i64 + back) as i32
    } else if val > max {
        let on = remainder_of(val as i64 - max as i64, max as i64 - min as i64);
        (min as i64 + on) as i32
    } else {
        val
    }
}

/// Where `min` is not above `max`, going round ends inside the range, so the
/// result always fits.
pub proof fn law_wrapped_in_range(val: int, min: int, max: int)
    requires
        min < max || (min == max && val == min),
    ensures
        min <= wrapped(val, min, max) <= max,
{
}

} // verus!
