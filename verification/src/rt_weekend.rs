//! Shared helpers: angle conversion and the uniform random source.

use vstd::prelude::*;
use crate::fixed::{
    Fx, FX_ONE, fx_add, fx_sub, fx_neg, fx_mul, fx_div, fx_div_int, fx_from_int,
};

verus! {

/// Pi at the fixed-point scale (truncation of pi * FX_ONE).
pub const FX_PI: i64 = 205887;

/// Pi / 2 at the fixed-point scale.
pub const FX_PI_HALF: i64 = 102943;

/// Degrees to radians: d * pi / 180, in fixed point.
pub open spec fn d2r(d: int) -> int {
    fx_div(fx_mul(d, FX_PI as int), fx_from_int(180))
}

pub fn degrees_to_radians(degrees: Fx) -> (r: Fx)
    ensures
        r@ == d2r(degrees@),
{
    degrees.mul(Fx { raw: FX_PI }).div(Fx::from_int(180))
}

/// Maclaurin polynomial for the sine on [0, pi/2], evaluated in fixed
/// point: x - x^3/6 + x^5/120 - x^7/5040 + x^9/362880.  Its truncation
/// error on that range lies below the fixed-point resolution.
pub open spec fn sin_poly(x: int) -> int {
    let x2 = fx_mul(x, x);
    let x3 = fx_mul(x2, x);
    let x5 = fx_mul(x3, x2);
    let x7 = fx_mul(x5, x2);
    let x9 = fx_mul(x7, x2);
    fx_add(
        fx_sub(fx_add(fx_sub(x, fx_div_int(x3, 6)), fx_div_int(x5, 120)), fx_div_int(x7, 5040)),
        fx_div_int(x9, 362880),
    )
}

/// Maclaurin polynomial for the cosine on [0, pi/2], evaluated in fixed
/// point: 1 - x^2/2 + x^4/24 - x^6/720 + x^8/40320 - x^10/3628800.
pub open spec fn cos_poly(x: int) -> int {
    let x2 = fx_mul(x, x);
    let x4 = fx_mul(x2, x2);
    let x6 = fx_mul(x4, x2);
    let x8 = fx_mul(x6, x2);
    let x10 = fx_mul(x8, x2);
    fx_sub(
        fx_add(
            fx_sub(
                fx_add(fx_sub(fx_from_int(1), fx_div_int(x2, 2)), fx_div_int(x4, 24)),
                fx_div_int(x6, 720),
            ),
            fx_div_int(x8, 40320),
        ),
        fx_div_int(x10, 3628800),
    )
}

/// Clamp an angle into [0, pi].
pub open spec fn clamp_angle(x: int) -> int {
    if x < 0 {
        0
    } else if x > FX_PI {
        FX_PI as int
    } else {
        x
    }
}

/// Sine of an angle clamped into [0, pi], folded onto [0, pi/2].
pub open spec fn sin_fx(x: int) -> int {
    let xc = clamp_angle(x);
    if xc > FX_PI_HALF {
        sin_poly(FX_PI - xc)
    } else {
        sin_poly(xc)
    }
}

/// Cosine of an angle clamped into [0, pi], folded onto [0, pi/2].
pub open spec fn cos_fx(x: int) -> int {
    let xc = clamp_angle(x);
    if xc > FX_PI_HALF {
        fx_neg(cos_poly(FX_PI - xc))
    } else {
        cos_poly(xc)
    }
}

/// tan(theta / 2) through the half-angle identity sin / (1 + cos), which
/// stays stable up to theta just under pi.
pub open spec fn tan_half_fx(theta: int) -> int {
    fx_div(sin_fx(theta), fx_add(FX_ONE as int, cos_fx(theta)))
}

fn sine_poly_exec(x: Fx) -> (r: Fx)
    ensures
        r@ == sin_poly(x@),
{
    let x2 = x.mul(x);
    let x3 = x2.mul(x);
    let x5 = x3.mul(x2);
    let x7 = x5.mul(x2);
    let x9 = x7.mul(x2);
    x.sub(x3.div_int(6)).add(x5.div_int(120)).sub(x7.div_int(5040)).add(x9.div_int(362880))
}

fn cosine_poly_exec(x: Fx) -> (r: Fx)
    ensures
        r@ == cos_poly(x@),
{
    let x2 = x.mul(x);
    let x4 = x2.mul(x2);
    let x6 = x4.mul(x2);
    let x8 = x6.mul(x2);
    let x10 = x8.mul(x2);
    Fx::from_int(1).sub(x2.div_int(2)).add(x4.div_int(24)).sub(x6.div_int(720)).add(
        x8.div_int(40320),
    ).sub(x10.div_int(3628800))
}

fn clamp_angle_exec(x: Fx) -> (r: Fx)
    ensures
        r@ == clamp_angle(x@),
{
    if x.lt(Fx::zero()) {
        Fx::zero()
    } else if x.gt(Fx { raw: FX_PI }) {
        Fx { raw: FX_PI }
    } else {
        x
    }
}

pub fn sine(x: Fx) -> (r: Fx)
    ensures
        r@ == sin_fx(x@),
{
    let xc = clamp_angle_exec(x);
    if xc.gt(Fx { raw: FX_PI_HALF }) {
        sine_poly_exec(Fx { raw: FX_PI }.sub(xc))
    } else {
        sine_poly_exec(xc)
    }
}

pub fn cosine(x: Fx) -> (r: Fx)
    ensures
        r@ == cos_fx(x@),
{
    let xc = clamp_angle_exec(x);
    if xc.gt(Fx { raw: FX_PI_HALF }) {
        cosine_poly_exec(Fx { raw: FX_PI }.sub(xc)).neg()
    } else {
        cosine_poly_exec(xc)
    }
}

pub fn tan_half(theta: Fx) -> (r: Fx)
    ensures
        r@ == tan_half_fx(theta@),
{
    sine(theta).div(Fx::one().add(cosine(theta)))
}

/// A uniform random fraction in [0, 1).
///
/// Relies on rand::random::<u16>: every 16-bit sample, read as a count of
/// 1/65536 units, is a fixed-point fraction in [0, 1).
#[verifier::external_body]
pub fn random_fx() -> (r: Fx)
    ensures
        0 <= r@ < FX_ONE,
{
    let bits: u16 = rand::random();
    Fx { raw: bits as i64 }
}

/// A random value drawn as min + (max - min) * random_fx().
pub fn random_fx_within(min: Fx, max: Fx) -> (r: Fx)
    ensures
        exists|u: int|
            0 <= u < FX_ONE && r@ == fx_add(min@, fx_mul(fx_sub(max@, min@), u)),
{
    let u = random_fx();
    let r = min.add(max.sub(min).mul(u));
    proof {
        assert(r@ == fx_add(min@, fx_mul(fx_sub(max@, min@), u@)));
    }
    r
}

} // verus!
