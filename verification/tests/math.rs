use rt_weekend::fixed::{Fx, FX_ONE, FX_HALF, FX_MAX};
use rt_weekend::vec3::{
    Vec3, dot, cross, unit_vector, reflect, refract, random_unit_vector, random_in_unit_disk,
};
use rt_weekend::interval::Interval;
use rt_weekend::color::{Color, linear_to_gamma, color_bytes};
use rt_weekend::rt_weekend::{degrees_to_radians, tan_half, random_fx, random_fx_within};

fn fx(i: i64) -> Fx {
    Fx::from_int(i)
}

#[test]
fn fixed_arithmetic_exact_values() {
    assert_eq!(fx(3).add(fx(4)), fx(7));
    assert_eq!(fx(3).sub(fx(4)), fx(-1));
    assert_eq!(fx(3).neg(), fx(-3));
    assert_eq!(fx(3).mul(fx(4)), fx(12));
    assert_eq!(fx(12).div(fx(4)), fx(3));
    assert_eq!(Fx::from_milli(500).raw, FX_HALF);
    assert_eq!(fx(1).div(fx(0)).raw, 0); // division by zero is defined as zero
    assert_eq!(fx(7).to_int_trunc(), 7);
    assert_eq!(fx(-7).to_int_trunc(), -7);
}

#[test]
fn fixed_saturates_instead_of_wrapping() {
    let big = Fx { raw: FX_MAX };
    assert_eq!(big.add(big).raw, FX_MAX);
    assert_eq!(big.mul(big).raw, FX_MAX);
    assert_eq!(big.neg().neg().raw, FX_MAX);
}

#[test]
fn fixed_sqrt_exact_and_floor() {
    assert_eq!(fx(4).sqrt(), fx(2));
    assert_eq!(fx(9).sqrt(), fx(3));
    // sqrt(2) is the floor of 65536 * 1.41421356...
    assert_eq!(fx(2).sqrt().raw, 92681);
    assert_eq!(fx(-4).sqrt().raw, 0);
}

#[test]
fn vector_componentwise_ops() {
    let a = Vec3::new(fx(1), fx(2), fx(3));
    let b = Vec3::new(fx(4), fx(5), fx(6));
    assert_eq!(a.add(b), Vec3::new(fx(5), fx(7), fx(9)));
    assert_eq!(b.sub(a), Vec3::new(fx(3), fx(3), fx(3)));
    assert_eq!(a.neg(), Vec3::new(fx(-1), fx(-2), fx(-3)));
    assert_eq!(a.mul(b), Vec3::new(fx(4), fx(10), fx(18)));
    assert_eq!(a.scale(fx(2)), Vec3::new(fx(2), fx(4), fx(6)));
    assert_eq!(
        a.div(fx(2)),
        Vec3::new(Fx { raw: FX_HALF }, fx(1), Fx { raw: FX_ONE + FX_HALF }),
    );
    assert_eq!(dot(&a, &b), fx(32));
    assert_eq!(cross(&a, &b), Vec3::new(fx(-3), fx(6), fx(-3)));
    assert_eq!(a.length_squared(), fx(14));
}

#[test]
fn near_zero_is_exact_zero_at_this_scale() {
    assert!(Vec3::new(Fx { raw: 0 }, Fx { raw: 0 }, Fx { raw: 0 }).near_zero());
    assert!(!Vec3::new(Fx { raw: 1 }, Fx { raw: 0 }, Fx { raw: 0 }).near_zero());
}

// Unit vectors have length one within tolerance; on an axis the value is
// exact.
#[test]
fn unit_vector_length_one_within_tolerance() {
    let v = Vec3::new(fx(3), fx(4), fx(0));
    let u = unit_vector(&v);
    let len = u.length();
    assert!((len.raw - FX_ONE).abs() <= 16, "length {}", len.raw);

    let axis = Vec3::new(fx(7), fx(0), fx(0));
    assert_eq!(unit_vector(&axis), Vec3::new(fx(1), fx(0), fx(0)));
    assert_eq!(unit_vector(&axis).length(), fx(1));
}

// dot(reflect(v, n), n) == -dot(v, n) for a unit normal; exact on an axis
// normal, within tolerance elsewhere.
#[test]
fn reflect_preserves_incidence_dot() {
    let v = Vec3::new(fx(1), fx(-1), fx(0));
    let n = Vec3::new(fx(0), fx(1), fx(0));
    let r = reflect(&v, &n);
    assert_eq!(r, Vec3::new(fx(1), fx(1), fx(0)));
    assert_eq!(dot(&r, &n), dot(&v, &n).neg());

    // a non-axis unit normal: within a few raw units
    let n2 = unit_vector(&Vec3::new(fx(1), fx(2), fx(-2)));
    let v2 = Vec3::new(fx(5), fx(-3), fx(2));
    let r2 = reflect(&v2, &n2);
    let lhs = dot(&r2, &n2);
    let rhs = dot(&v2, &n2).neg();
    assert!((lhs.raw - rhs.raw).abs() <= 64, "lhs {} rhs {}", lhs.raw, rhs.raw);
}

#[test]
fn refract_straight_through_when_matched() {
    // index ratio one refracts without bending: the direction is preserved
    // within tolerance
    let uv = unit_vector(&Vec3::new(fx(1), fx(-1), fx(0)));
    let n = Vec3::new(fx(0), fx(1), fx(0));
    let r = refract(&uv, &n, fx(1));
    assert!((r.x().raw - uv.x().raw).abs() <= 64);
    assert!((r.y().raw - uv.y().raw).abs() <= 64);
    assert!((r.z().raw - uv.z().raw).abs() <= 64);
}

#[test]
fn random_unit_vector_has_unit_length_within_tolerance() {
    for _ in 0..32 {
        let u = random_unit_vector();
        let len = u.length();
        assert!((len.raw - FX_ONE).abs() <= 600, "length {}", len.raw);
        assert!(!u.near_zero());
    }
}

#[test]
fn random_fraction_stays_in_range() {
    for _ in 0..64 {
        let u = random_fx();
        assert!(0 <= u.raw && u.raw < FX_ONE);
        let w = random_fx_within(fx(2), fx(4));
        assert!(fx(2).raw <= w.raw && w.raw < fx(4).raw);
    }
}

#[test]
fn interval_surrounds_and_clamp() {
    let i = Interval::new(fx(0), fx(10));
    assert!(i.surrounds(fx(5)));
    assert!(!i.surrounds(fx(0)));
    assert!(!i.surrounds(fx(10)));
    assert_eq!(i.clamp(fx(-3)), fx(0));
    assert_eq!(i.clamp(fx(12)), fx(10));
    assert_eq!(i.clamp(fx(7)), fx(7));
}

#[test]
fn gamma_and_quantization() {
    assert_eq!(linear_to_gamma(Fx::from_milli(250)), Fx::from_milli(500));
    assert_eq!(linear_to_gamma(fx(-1)).raw, 0);
    let c = Color::new(Fx::from_milli(250), fx(1), fx(0));
    assert_eq!(color_bytes(&c), (128, 255, 0));
    // channels above one clamp at 255 instead of wrapping
    let hot = Color::new(fx(9), fx(9), fx(9));
    assert_eq!(color_bytes(&hot), (255, 255, 255));
}

#[test]
fn disk_samples_stay_inside_the_unit_disk() {
    for _ in 0..32 {
        let p = random_in_unit_disk();
        assert_eq!(p.z().raw, 0);
        assert!(p.length_squared().raw < FX_ONE);
    }
}

#[test]
fn degrees_to_radians_and_tangent() {
    // 180 degrees converts exactly to the stored value of pi
    assert_eq!(degrees_to_radians(fx(180)).raw, 205887);
    let theta = degrees_to_radians(fx(90));
    // pi/2 within a few raw units
    assert!((theta.raw - 102943).abs() <= 4, "theta {}", theta.raw);
    // tan(45 degrees) == 1 within tolerance
    let t = tan_half(theta);
    assert!((t.raw - FX_ONE).abs() <= 16, "tan {}", t.raw);
}
