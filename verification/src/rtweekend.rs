//! Constants and small numeric helpers.

use crate::fixed::{fx_div, fx_mul, scale, Fixed};
use vstd::prelude::*;

verus! {

/// Raw value of pi: 13493037705 units, the count of units nearest to pi.
pub const PI_RAW: i64 = 13493037705;

/// Raw value of an angle in radians, given in degrees: `degrees * pi / 180`.
pub open spec fn fx_degrees_to_radians(degrees: int) -> int {
    fx_div(fx_mul(degrees, PI_RAW as int), 180 * scale())
}

/// `x` moved into `[min, max]`: `min` where `x < min`, else `max` where
/// `x > max`, else `x`.
pub open spec fn fx_clamp(x: int, min: int, max: int) -> int {
    if x < min {
        min
    } else if x > max {
        max
    } else {
        x
    }
}

/// Converts an angle from degrees to radians.
pub fn degrees_to_radians(degrees: Fixed) -> (r: Fixed)
    ensures
        r@ == fx_degrees_to_radians(degrees@),
{
    degrees.mul(Fixed::from_raw(PI_RAW)).div(Fixed::from_int(180))
}

/// Moves `x` into `[min, max]`.
pub fn clamp(x: Fixed, min: Fixed, max: Fixed) -> (r: Fixed)
    ensures
        r@ == fx_clamp(x@, min@, max@),
{
    if x.lt(min) {
        return min;
    }
    if max.lt(x) {
        return max;
    }
    x
}

} // verus!
