//! Small integer helpers shared by the scenes.

use vstd::math::abs;
use vstd::prelude::*;

verus! {

/// Absolute value.
pub fn abs_i32(v: i32) -> (r: i32)
    requires
        v > i32::MIN,
    ensures
        r == abs(v as int),
{
    if v < 0 {
        -v
    } else {
        v
    }
}

/// Magnitude of `v` as an unsigned value (defined for every `i32`).
pub fn unsigned_abs_i32(v: i32) -> (r: u32)
    ensures
        r == abs(v as int),
{
    if v < 0 {
        (-(v as i64)) as u32
    } else {
        v as u32
    }
}

} // verus!
