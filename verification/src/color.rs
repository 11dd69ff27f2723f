//! From accumulated light to the three bytes of a pixel.

use crate::fixed::{fx_div, fx_max, fx_sqrt, is_isqrt, lemma_isqrt_is, scale, Fixed};
use crate::ppm::{pixel_line, pixel_text};
use crate::rtweekend::{clamp, fx_clamp};
use crate::vec3::{Color, V3};
use vstd::prelude::*;

verus! {

/// Raw value of the largest channel value before scaling: 4290672328 units,
/// the largest count of units that is not above 0.999.
pub const CHANNEL_MAX_RAW: i64 = 4290672328;

/// A pixel: red, green and blue levels from 0 to 255.
#[derive(Clone, Copy, Debug, PartialEq, Eq)]
pub struct Rgb {
    pub r: u8,
    pub g: u8,
    pub b: u8,
}

/// The level from 0 to 255 of a channel whose samples add up to `sum`: the
/// average over `samples` samples is gamma-corrected by a square root, clamped
/// to `[0, 0.999]` and scaled by 256, rounding down. An average below zero
/// counts as zero.
pub open spec fn channel_level(sum: int, samples: int) -> int {
    let average = fx_div(sum, samples * scale());
    let corrected = fx_sqrt(fx_max(average, 0));
    256 * fx_clamp(corrected, 0, CHANNEL_MAX_RAW as int) / scale()
}

/// Whether `rgb` is the pixel for the accumulated colour `sum` of `samples`
/// samples.
pub open spec fn rgb_matches(rgb: Rgb, sum: V3, samples: int) -> bool {
    &&& rgb.r == channel_level(sum.x, samples)
    &&& rgb.g == channel_level(sum.y, samples)
    &&& rgb.b == channel_level(sum.z, samples)
}

/// The pixel for the accumulated colour `sum` of `samples` samples.
pub open spec fn pixel_model(sum: V3, samples: int) -> Rgb {
    Rgb {
        r: channel_level(sum.x, samples) as u8,
        g: channel_level(sum.y, samples) as u8,
        b: channel_level(sum.z, samples) as u8,
    }
}

/// No light gives the level zero.
pub proof fn lemma_black_level(samples: int)
    requires
        samples > 0,
    ensures
        channel_level(0, samples) == 0,
{
    assert(0 * scale() == 0);
    assert(fx_div(0, samples * scale()) == 0);
    assert(is_isqrt(0, 0));
    lemma_isqrt_is(0, 0);
}

/// The level from 0 to 255 of one channel.
fn channel_byte(sum: Fixed, samples: Fixed) -> (level: u8)
    requires
        samples@ != 0,
    ensures
        level == 256 * fx_clamp(
            fx_sqrt(fx_max(fx_div(sum@, samples@), 0)),
            0,
            CHANNEL_MAX_RAW as int,
        ) / scale(),
{
    let corrected = sum.div(samples).max(Fixed::zero()).sqrt();
    let clamped = clamp(corrected, Fixed::zero(), Fixed::from_raw(CHANNEL_MAX_RAW));
    ((256 * clamped.raw()) / 0x1_0000_0000) as u8
}

/// The pixel for the accumulated colour `pixel_color` of `samples_per_pixel`
/// samples, of which there must be at least one.
pub fn pixel_rgb(pixel_color: Color, samples_per_pixel: i32) -> (rgb: Rgb)
    requires
        samples_per_pixel > 0,
    ensures
        rgb_matches(rgb, pixel_color@, samples_per_pixel as int),
        rgb == pixel_model(pixel_color@, samples_per_pixel as int),
{
    let samples = Fixed::from_int(samples_per_pixel);
    Rgb {
        r: channel_byte(pixel_color.x(), samples),
        g: channel_byte(pixel_color.y(), samples),
        b: channel_byte(pixel_color.z(), samples),
    }
}

/// The line of text for the accumulated colour `pixel_color` of
/// `samples_per_pixel` samples, of which there must be at least one: the three
/// levels of the pixel in decimal.
pub fn write_color(pixel_color: Color, samples_per_pixel: i32) -> (line: Vec<u8>)
    requires
        samples_per_pixel > 0,
    ensures
        line@ == pixel_text(pixel_model(pixel_color@, samples_per_pixel as int)),
{
    let rgb = pixel_rgb(pixel_color, samples_per_pixel);
    pixel_line(rgb)
}

} // verus!
