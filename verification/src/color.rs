use vstd::prelude::*;
use crate::interval::Interval;
use crate::vec3::Vec3;

verus! {

/// A color: three channels in thousandths of full intensity, already in
/// gamma space.
pub type Color = Vec3;

/// One channel quantized to a byte: negative values floor at zero, values at
/// or above full intensity saturate just below 256 and so land on 255.
pub open spec fn spec_channel_byte(v: int) -> int {
    if v < 0 {
        0
    } else if v > 999 {
        255
    } else {
        (256 * v) / 1000
    }
}

/// Quantize a gamma-space color in thousandths to the three output bytes of
/// its pixel: each channel is clamped to just below full intensity and scaled
/// to the byte range, so zero maps to byte 0 and full intensity to byte 255.
pub fn write_color(pixel_color: &Color) -> (r: (u8, u8, u8))
    ensures
        r.0 == spec_channel_byte(pixel_color.x as int),
        r.1 == spec_channel_byte(pixel_color.y as int),
        r.2 == spec_channel_byte(pixel_color.z as int),
{
    let intensity: Interval = Interval::new(0, 999);
    let rbyte: u8 = ((256 * intensity.clamp(pixel_color.x)) / 1000) as u8;
    let gbyte: u8 = ((256 * intensity.clamp(pixel_color.y)) / 1000) as u8;
    let bbyte: u8 = ((256 * intensity.clamp(pixel_color.z)) / 1000) as u8;
    (rbyte, gbyte, bbyte)
}

/// The quantization never leaves the byte range, and it maps the exact
/// gamma-space extremes to the exact extreme bytes.
pub proof fn lemma_channel_byte_range(v: int)
    ensures
        0 <= spec_channel_byte(v) <= 255,
        v <= 0 ==> spec_channel_byte(v) == 0,
        v >= 999 ==> spec_channel_byte(v) == 255,
{
}

} // verus!
