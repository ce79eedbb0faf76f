//! Colors are vectors of linear channel intensities; this module turns an
//! accumulated linear color into gamma-corrected 8-bit channels, ready for
//! an image writer.

use vstd::prelude::*;
use crate::fixed::{Fx, FX_ONE, fx_sqrt, tdiv};
use crate::vec3::Vec3;
use crate::interval::{Interval, i_clamp};

verus! {

pub type Color = Vec3;

/// Upper clamp for channel intensity before quantization: 0.999,
/// truncated to the fixed-point scale, so that a full channel maps to 255
/// and never overflows the byte.
pub const INTENSITY_MAX: i64 = 65470;

/// Gamma-2 transform: the square root of a positive linear component.
pub open spec fn gamma_of(linear: int) -> int {
    if linear > 0 {
        fx_sqrt(linear)
    } else {
        0
    }
}

pub fn linear_to_gamma(linear_component: Fx) -> (r: Fx)
    ensures
        r@ == gamma_of(linear_component@),
{
    if linear_component.gt(Fx::zero()) {
        linear_component.sqrt()
    } else {
        Fx::zero()
    }
}

/// One channel quantized: gamma, clamp into [0, INTENSITY_MAX], then
/// 256 * clamped, truncated to whole units.
pub open spec fn channel_byte(linear: int) -> int {
    tdiv(256 * i_clamp(0, INTENSITY_MAX as int, gamma_of(linear)), FX_ONE as int)
}

fn quantize(clamped: Fx) -> (r: u8)
    requires
        0 <= clamped@ <= INTENSITY_MAX,
    ensures
        r as int == tdiv(256 * clamped@, FX_ONE as int),
{
    let n: u64 = (clamped.raw as u64) * 256;
    (n / (FX_ONE as u64)) as u8
}

/// The gamma-corrected 8-bit channels of a pixel, each in 0..=255; an
/// image writer serializes them.
pub fn color_bytes(pixel_color: &Color) -> (r: (u8, u8, u8))
    ensures
        r.0 as int == channel_byte(pixel_color@.x),
        r.1 as int == channel_byte(pixel_color@.y),
        r.2 as int == channel_byte(pixel_color@.z),
{
    let intensity = Interval::new(Fx::zero(), Fx { raw: INTENSITY_MAX });
    let ir = quantize(intensity.clamp(linear_to_gamma(pixel_color.x())));
    let ig = quantize(intensity.clamp(linear_to_gamma(pixel_color.y())));
    let ib = quantize(intensity.clamp(linear_to_gamma(pixel_color.z())));
    (ir, ig, ib)
}

} // verus!
