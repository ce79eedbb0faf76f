//! Three-component fixed-point vectors, used as points, directions and
//! colors.  Each executable operation has an exact contract over the
//! mathematical view `V3`, stated with the spec functions below.

use vstd::prelude::*;
use vstd::math::abs;
use crate::fixed::{
    Fx, FX_ONE, fits, fx_add, fx_sub, fx_neg, fx_mul, fx_div, fx_min, fx_abs,
    fx_sqrt, tdiv, lemma_tdiv_mul_exact, lemma_tdiv_remainder, lemma_isqrt_unique,
};
use crate::rt_weekend::{random_fx, random_fx_within};

verus! {

/// Mathematical view of a vector: three raw fixed-point components.
pub ghost struct V3 {
    pub x: int,
    pub y: int,
    pub z: int,
}

pub open spec fn v3(x: int, y: int, z: int) -> V3 {
    V3 { x, y, z }
}

pub open spec fn v3_add(a: V3, b: V3) -> V3 {
    V3 { x: fx_add(a.x, b.x), y: fx_add(a.y, b.y), z: fx_add(a.z, b.z) }
}

pub open spec fn v3_sub(a: V3, b: V3) -> V3 {
    V3 { x: fx_sub(a.x, b.x), y: fx_sub(a.y, b.y), z: fx_sub(a.z, b.z) }
}

pub open spec fn v3_neg(a: V3) -> V3 {
    V3 { x: fx_neg(a.x), y: fx_neg(a.y), z: fx_neg(a.z) }
}

/// Componentwise product (used for color attenuation).
pub open spec fn v3_mulv(a: V3, b: V3) -> V3 {
    V3 { x: fx_mul(a.x, b.x), y: fx_mul(a.y, b.y), z: fx_mul(a.z, b.z) }
}

/// Scalar product.
pub open spec fn v3_scale(a: V3, k: int) -> V3 {
    V3 { x: fx_mul(a.x, k), y: fx_mul(a.y, k), z: fx_mul(a.z, k) }
}

/// Componentwise division by a scalar.
pub open spec fn v3_div_s(a: V3, k: int) -> V3 {
    V3 { x: fx_div(a.x, k), y: fx_div(a.y, k), z: fx_div(a.z, k) }
}

/// Fixed-point dot product: each product rounded once, then summed.
pub open spec fn v3_dot(a: V3, b: V3) -> int {
    fx_add(fx_add(fx_mul(a.x, b.x), fx_mul(a.y, b.y)), fx_mul(a.z, b.z))
}

/// The un-rounded dot product of the raw components; it carries the scale
/// FX_ONE twice, and is the reference the rounded operations approximate.
pub open spec fn dot_raw(a: V3, b: V3) -> int {
    a.x * b.x + a.y * b.y + a.z * b.z
}

pub open spec fn v3_len_sq(a: V3) -> int {
    v3_dot(a, a)
}

pub open spec fn v3_len(a: V3) -> int {
    fx_sqrt(v3_len_sq(a))
}

pub open spec fn v3_unit(a: V3) -> V3 {
    v3_div_s(a, v3_len(a))
}

/// All components are zero.  The customary degeneracy threshold of 1e-8
/// lies below the fixed-point resolution 1/FX_ONE, so at this scale the
/// test is an exact zero test.
pub open spec fn v3_near_zero(a: V3) -> bool {
    a.x == 0 && a.y == 0 && a.z == 0
}

pub open spec fn v3_cross(a: V3, b: V3) -> V3 {
    V3 {
        x: fx_sub(fx_mul(a.y, b.z), fx_mul(a.z, b.y)),
        y: fx_sub(fx_mul(a.z, b.x), fx_mul(a.x, b.z)),
        z: fx_sub(fx_mul(a.x, b.y), fx_mul(a.y, b.x)),
    }
}

/// v - 2 * dot(v, n) * n.
pub open spec fn v3_reflect(v: V3, n: V3) -> V3 {
    v3_sub(v, v3_scale(n, fx_add(v3_dot(v, n), v3_dot(v, n))))
}

/// Snell refraction of unit direction `uv` at normal `n` with index
/// ratio `eta`: perpendicular part eta * (uv + cos * n), parallel part
/// -sqrt(|1 - |perp|^2|) * n.
pub open spec fn v3_refract(uv: V3, n: V3, eta: int) -> V3 {
    let cos_theta = fx_min(v3_dot(v3_neg(uv), n), FX_ONE as int);
    let r_out_perp = v3_scale(v3_add(uv, v3_scale(n, cos_theta)), eta);
    let par_len = fx_neg(fx_sqrt(fx_abs(fx_sub(FX_ONE as int, v3_len_sq(r_out_perp)))));
    v3_add(r_out_perp, v3_scale(n, par_len))
}

/// A vector of three fixed-point components.
#[derive(Clone, Copy, Debug, PartialEq, Eq, Structural)]
pub struct Vec3 {
    e0: Fx,
    e1: Fx,
    e2: Fx,
}

pub type Point3 = Vec3;

impl View for Vec3 {
    type V = V3;

    closed spec fn view(&self) -> V3 {
        V3 { x: self.e0@, y: self.e1@, z: self.e2@ }
    }
}

impl Vec3 {
    pub fn default() -> (r: Vec3)
        ensures
            r@ == v3(0, 0, 0),
    {
        Vec3 { e0: Fx::zero(), e1: Fx::zero(), e2: Fx::zero() }
    }

    pub fn new(e0: Fx, e1: Fx, e2: Fx) -> (r: Vec3)
        ensures
            r@ == v3(e0@, e1@, e2@),
    {
        Vec3 { e0, e1, e2 }
    }

    pub fn x(&self) -> (r: Fx)
        ensures
            r@ == self@.x,
    {
        self.e0
    }

    pub fn y(&self) -> (r: Fx)
        ensures
            r@ == self@.y,
    {
        self.e1
    }

    pub fn z(&self) -> (r: Fx)
        ensures
            r@ == self@.z,
    {
        self.e2
    }

    pub fn add(self, rhs: Vec3) -> (r: Vec3)
        ensures
            r@ == v3_add(self@, rhs@),
    {
        Vec3 { e0: self.e0.add(rhs.e0), e1: self.e1.add(rhs.e1), e2: self.e2.add(rhs.e2) }
    }

    pub fn sub(self, rhs: Vec3) -> (r: Vec3)
        ensures
            r@ == v3_sub(self@, rhs@),
    {
        Vec3 { e0: self.e0.sub(rhs.e0), e1: self.e1.sub(rhs.e1), e2: self.e2.sub(rhs.e2) }
    }

    pub fn neg(self) -> (r: Vec3)
        ensures
            r@ == v3_neg(self@),
    {
        Vec3 { e0: self.e0.neg(), e1: self.e1.neg(), e2: self.e2.neg() }
    }

    /// Componentwise product.
    pub fn mul(self, rhs: Vec3) -> (r: Vec3)
        ensures
            r@ == v3_mulv(self@, rhs@),
    {
        Vec3 { e0: self.e0.mul(rhs.e0), e1: self.e1.mul(rhs.e1), e2: self.e2.mul(rhs.e2) }
    }

    /// Scalar product.
    pub fn scale(self, k: Fx) -> (r: Vec3)
        ensures
            r@ == v3_scale(self@, k@),
    {
        Vec3 { e0: self.e0.mul(k), e1: self.e1.mul(k), e2: self.e2.mul(k) }
    }

    /// Componentwise division by a scalar.
    pub fn div(self, k: Fx) -> (r: Vec3)
        ensures
            r@ == v3_div_s(self@, k@),
    {
        Vec3 { e0: self.e0.div(k), e1: self.e1.div(k), e2: self.e2.div(k) }
    }

    pub fn length_squared(&self) -> (r: Fx)
        ensures
            r@ == v3_len_sq(self@),
    {
        dot(self, self)
    }

    pub fn length(&self) -> (r: Fx)
        ensures
            r@ == v3_len(self@),
    {
        self.length_squared().sqrt()
    }

    /// A vector with each component drawn uniformly from [0, 1).
    pub fn random() -> (r: Vec3)
        ensures
            0 <= r@.x < FX_ONE,
            0 <= r@.y < FX_ONE,
            0 <= r@.z < FX_ONE,
    {
        Vec3 { e0: random_fx(), e1: random_fx(), e2: random_fx() }
    }

    /// A vector with each component drawn from [min, max) by the formula
    /// min + (max - min) * u with u uniform in [0, 1).
    pub fn random_within(min: Fx, max: Fx) -> (r: Vec3)
        ensures
            exists|u: V3|
                (0 <= u.x < FX_ONE && 0 <= u.y < FX_ONE && 0 <= u.z < FX_ONE)
                    && r@ == v3(
                    fx_add(min@, fx_mul(fx_sub(max@, min@), u.x)),
                    fx_add(min@, fx_mul(fx_sub(max@, min@), u.y)),
                    fx_add(min@, fx_mul(fx_sub(max@, min@), u.z)),
                ),
    {
        let a = random_fx_within(min, max);
        let b = random_fx_within(min, max);
        let c = random_fx_within(min, max);
        let r = Vec3 { e0: a, e1: b, e2: c };
        proof {
            let ua = choose|u: int|
                0 <= u < FX_ONE && a@ == fx_add(min@, fx_mul(fx_sub(max@, min@), u));
            let ub = choose|u: int|
                0 <= u < FX_ONE && b@ == fx_add(min@, fx_mul(fx_sub(max@, min@), u));
            let uc = choose|u: int|
                0 <= u < FX_ONE && c@ == fx_add(min@, fx_mul(fx_sub(max@, min@), u));
            let w = V3 { x: ua, y: ub, z: uc };
            assert((0 <= w.x < FX_ONE && 0 <= w.y < FX_ONE && 0 <= w.z < FX_ONE)
                && r@ == v3(
                fx_add(min@, fx_mul(fx_sub(max@, min@), w.x)),
                fx_add(min@, fx_mul(fx_sub(max@, min@), w.y)),
                fx_add(min@, fx_mul(fx_sub(max@, min@), w.z)),
            ));
        }
        r
    }

    pub fn near_zero(&self) -> (r: bool)
        ensures
            r == v3_near_zero(self@),
    {
        self.e0.raw == 0 && self.e1.raw == 0 && self.e2.raw == 0
    }
}

pub fn dot(u: &Vec3, v: &Vec3) -> (r: Fx)
    ensures
        r@ == v3_dot(u@, v@),
{
    u.e0.mul(v.e0).add(u.e1.mul(v.e1)).add(u.e2.mul(v.e2))
}

pub fn cross(u: &Vec3, v: &Vec3) -> (r: Vec3)
    ensures
        r@ == v3_cross(u@, v@),
{
    Vec3 {
        e0: u.e1.mul(v.e2).sub(u.e2.mul(v.e1)),
        e1: u.e2.mul(v.e0).sub(u.e0.mul(v.e2)),
        e2: u.e0.mul(v.e1).sub(u.e1.mul(v.e0)),
    }
}

pub fn unit_vector(v: &Vec3) -> (r: Vec3)
    ensures
        r@ == v3_unit(v@),
{
    v.div(v.length())
}

/// What `random_unit_vector` returns: some accepted cube sample of squared
/// length in (0, 1], divided by its length.
pub open spec fn is_unit_sample(u: V3) -> bool {
    exists|p: V3| 0 < v3_len_sq(p) <= FX_ONE && u == v3_div_s(p, fx_sqrt(v3_len_sq(p)))
}

/// A fixed-point square of at least one raw unit puts its base at least
/// 256 raw units away from zero.
proof fn lemma_square_at_least_unit(a: int)
    requires
        fx_mul(a, a) >= 1,
    ensures
        a * a >= FX_ONE,
{
    assert(a * a >= 0) by (nonlinear_arith);
    if a * a < FX_ONE {
        vstd::arithmetic::div_mod::lemma_basic_div(a * a, FX_ONE as int);
        assert(tdiv(a * a, FX_ONE as int) == 0);
        assert(false);
    }
}

/// Dividing a component of at least one whole unit in square by a length
/// of at most one keeps it away from zero.
proof fn lemma_div_s_component_nonzero(a: int, l: int)
    requires
        a * a >= FX_ONE,
        1 <= l <= FX_ONE,
    ensures
        fx_div(a, l) != 0,
{
    assert(a >= 256 || a <= -256) by (nonlinear_arith)
        requires
            a * a >= 65536,
    ;
    let x = a * FX_ONE;
    assert(abs(x) == abs(a) * FX_ONE) by (nonlinear_arith)
        requires
            x == a * FX_ONE,
    ;
    vstd::arithmetic::div_mod::lemma_div_is_ordered_by_denominator(abs(x) as int, l, FX_ONE as int);
    vstd::arithmetic::div_mod::lemma_div_multiples_vanish(abs(a) as int, FX_ONE as int);
    assert(abs(a) as int * FX_ONE == FX_ONE * (abs(a) as int)) by (nonlinear_arith);
    assert(abs(x) as int / (FX_ONE as int) == abs(a));
    assert(abs(x) as int / l >= abs(a) as int >= 256);
    assert(tdiv(x, l) >= 256 || tdiv(x, l) <= -256);
    assert(fx_div(a, l) != 0);
}

/// The normalized form of an accepted sample is never the zero vector:
/// the lower bound of the acceptance window guarantees one component of
/// at least a quarter unit in magnitude.
pub proof fn lemma_unit_sample_not_zero(p: V3)
    requires
        0 < v3_len_sq(p) <= FX_ONE,
    ensures
        !v3_near_zero(v3_div_s(p, fx_sqrt(v3_len_sq(p)))),
{
    let ls = v3_len_sq(p);
    let lq = fx_sqrt(ls);
    crate::fixed::lemma_isqrt_bounds((ls * FX_ONE) as nat);
    assert(FX_ONE <= ls * FX_ONE && ls * FX_ONE <= FX_ONE * FX_ONE) by (nonlinear_arith)
        requires
            0 < ls <= FX_ONE,
    ;
    assert(lq >= 256) by (nonlinear_arith)
        requires
            (lq + 1) * (lq + 1) > 65536,
            lq >= 0,
    ;
    assert(lq <= FX_ONE) by (nonlinear_arith)
        requires
            lq * lq <= 4294967296,
            lq >= 0,
    ;
    let mx = fx_mul(p.x, p.x);
    let my = fx_mul(p.y, p.y);
    let mz = fx_mul(p.z, p.z);
    assert(p.x * p.x >= 0 && p.y * p.y >= 0 && p.z * p.z >= 0) by (nonlinear_arith);
    assert(mx >= 0 && my >= 0 && mz >= 0);
    assert(mx >= 1 || my >= 1 || mz >= 1);
    if mx >= 1 {
        lemma_square_at_least_unit(p.x);
        lemma_div_s_component_nonzero(p.x, lq);
    } else if my >= 1 {
        lemma_square_at_least_unit(p.y);
        lemma_div_s_component_nonzero(p.y, lq);
    } else {
        lemma_square_at_least_unit(p.z);
        lemma_div_s_component_nonzero(p.z, lq);
    }
}

/// A random direction of (approximately) unit length: rejection-sample a
/// point of the cube [-1, 1)^3 until its squared length lies in (0, 1],
/// then divide by its length.  The number of draws is bounded so that the
/// sampler is total; the (astronomically unlikely) fallback after the last
/// rejection is the x axis, normalized through the same formula.
pub fn random_unit_vector() -> (r: Vec3)
    ensures
        is_unit_sample(r@),
        !v3_near_zero(r@),
{
    let mut tries: u32 = 64;
    while tries > 0
        decreases tries,
    {
        let p = Vec3::random_within(Fx::from_int(-1), Fx::one());
        let len_sq = p.length_squared();
        if Fx::zero().lt(len_sq) && len_sq.le(Fx::one()) {
            let r = p.div(len_sq.sqrt());
            proof {
                assert(0 < v3_len_sq(p@) <= FX_ONE
                    && r@ == v3_div_s(p@, fx_sqrt(v3_len_sq(p@))));
                lemma_unit_sample_not_zero(p@);
            }
            return r;
        }
        tries = tries - 1;
    }
    let p = Vec3::new(Fx::one(), Fx::zero(), Fx::zero());
    proof {
        lemma_tdiv_mul_exact(FX_ONE as int, FX_ONE as int);
        lemma_tdiv_mul_exact(0, FX_ONE as int);
        assert(v3_len_sq(p@) == FX_ONE);
    }
    let len_sq = p.length_squared();
    let r = p.div(len_sq.sqrt());
    proof {
        assert(0 < v3_len_sq(p@) <= FX_ONE && r@ == v3_div_s(p@, fx_sqrt(v3_len_sq(p@))));
        lemma_unit_sample_not_zero(p@);
    }
    r
}

/// A random unit-length direction on the hemisphere around `normal`:
/// the opposite-facing sample is negated, not re-drawn.
pub fn random_on_hemisphere(normal: &Vec3) -> (r: Vec3)
    ensures
        exists|u: V3|
            is_unit_sample(u) && r@ == (if v3_dot(u, normal@) > 0 {
                u
            } else {
                v3_neg(u)
            }),
{
    let on_unit_hemisphere = random_unit_vector();
    if dot(&on_unit_hemisphere, normal).gt(Fx::zero()) {
        on_unit_hemisphere
    } else {
        on_unit_hemisphere.neg()
    }
}

/// A random point of the unit disk in the z = 0 plane, by rejection; the
/// number of draws is bounded so the sampler is total, and the fallback
/// after the last rejection is the disk center.
pub fn random_in_unit_disk() -> (r: Vec3)
    ensures
        r@.z == 0,
        v3_len_sq(r@) < FX_ONE,
{
    let mut tries: u32 = 64;
    while tries > 0
        decreases tries,
    {
        let p = Vec3::new(
            random_fx_within(Fx::from_int(-1), Fx::one()),
            random_fx_within(Fx::from_int(-1), Fx::one()),
            Fx::zero(),
        );
        let len_sq = p.length_squared();
        if len_sq.lt(Fx::one()) {
            return p;
        }
        tries = tries - 1;
    }
    let p = Vec3::default();
    proof {
        assert(v3_len_sq(p@) == 0);
    }
    p
}

/// The fixed-point product of a and b rounds away nothing and saturates
/// nothing: it is exactly a * b / FX_ONE.
pub open spec fn mul_exact(a: int, b: int) -> bool {
    a * b == FX_ONE * tdiv(a * b, FX_ONE as int) && fits(tdiv(a * b, FX_ONE as int))
}

/// The fixed-point quotient of a by b rounds away nothing and saturates
/// nothing: it is exactly a * FX_ONE / b.
pub open spec fn div_exact(a: int, b: int) -> bool {
    b != 0 && a * FX_ONE == b * tdiv(a * FX_ONE, b) && fits(tdiv(a * FX_ONE, b))
}

/// Every step of the fixed-point dot product of a and b is exact.
pub open spec fn dot_exact(a: V3, b: V3) -> bool {
    &&& mul_exact(a.x, b.x)
    &&& mul_exact(a.y, b.y)
    &&& mul_exact(a.z, b.z)
    &&& fits(fx_mul(a.x, b.x) + fx_mul(a.y, b.y))
    &&& fits(fx_mul(a.x, b.x) + fx_mul(a.y, b.y) + fx_mul(a.z, b.z))
}

/// An exact fixed-point product, scaled back up, is the raw product.
pub proof fn lemma_mul_exact(a: int, b: int)
    requires
        mul_exact(a, b),
    ensures
        FX_ONE * fx_mul(a, b) == a * b,
{
}

/// An exact fixed-point quotient, scaled back by the divisor, is the
/// scaled numerator.
pub proof fn lemma_div_exact(a: int, b: int)
    requires
        div_exact(a, b),
    ensures
        b * fx_div(a, b) == a * FX_ONE,
{
}

/// An exact fixed-point dot product carries the raw dot product: scaling
/// it by FX_ONE recovers the sum of the raw component products.
pub proof fn lemma_dot_exact(a: V3, b: V3)
    requires
        dot_exact(a, b),
    ensures
        FX_ONE * v3_dot(a, b) == dot_raw(a, b),
{
    lemma_mul_exact(a.x, b.x);
    lemma_mul_exact(a.y, b.y);
    lemma_mul_exact(a.z, b.z);
}

/// For every direction v whose fixed-point length and normalization are
/// exact, the unit vector has length exactly one: its raw dot product
/// with itself is FX_ONE squared, and the length of v itself is the exact
/// root l.  (With rounding, both hold only within a small tolerance; a
/// vector such as (3, 4, 0) already leaves a one-unit remainder.)
pub proof fn lemma_unit_vector_length(v: V3, l: int)
    requires
        l > 0,
        l * l == dot_raw(v, v),
        dot_exact(v, v),
        div_exact(v.x, l),
        div_exact(v.y, l),
        div_exact(v.z, l),
    ensures
        v3_len(v) == l,
        dot_raw(v3_unit(v), v3_unit(v)) == FX_ONE * FX_ONE,
{
    lemma_dot_exact(v, v);
    let ls = v3_len_sq(v);
    assert(FX_ONE * ls == l * l);
    assert(ls >= 0) by (nonlinear_arith)
        requires
            FX_ONE * ls == l * l,
    ;
    assert(ls * FX_ONE == l * l) by (nonlinear_arith)
        requires
            FX_ONE * ls == l * l,
    ;
    assert(l * l < (l + 1) * (l + 1)) by (nonlinear_arith)
        requires
            l > 0,
    ;
    lemma_isqrt_unique((ls * FX_ONE) as nat, l as nat);
    assert(v3_len(v) == l);

    let u = v3_unit(v);
    lemma_div_exact(v.x, l);
    lemma_div_exact(v.y, l);
    lemma_div_exact(v.z, l);
    assert(l * u.x == v.x * FX_ONE);
    assert(l * u.y == v.y * FX_ONE);
    assert(l * u.z == v.z * FX_ONE);
    assert((u.x * u.x) * (l * l) == (FX_ONE * FX_ONE) * (v.x * v.x)) by (nonlinear_arith)
        requires
            l * u.x == v.x * FX_ONE,
    ;
    assert((u.y * u.y) * (l * l) == (FX_ONE * FX_ONE) * (v.y * v.y)) by (nonlinear_arith)
        requires
            l * u.y == v.y * FX_ONE,
    ;
    assert((u.z * u.z) * (l * l) == (FX_ONE * FX_ONE) * (v.z * v.z)) by (nonlinear_arith)
        requires
            l * u.z == v.z * FX_ONE,
    ;
    assert(dot_raw(u, u) * (l * l) == (FX_ONE * FX_ONE) * dot_raw(v, v)) by (nonlinear_arith)
        requires
            (u.x * u.x) * (l * l) == (FX_ONE * FX_ONE) * (v.x * v.x),
            (u.y * u.y) * (l * l) == (FX_ONE * FX_ONE) * (v.y * v.y),
            (u.z * u.z) * (l * l) == (FX_ONE * FX_ONE) * (v.z * v.z),
            dot_raw(u, u) == u.x * u.x + u.y * u.y + u.z * u.z,
            dot_raw(v, v) == v.x * v.x + v.y * v.y + v.z * v.z,
    ;
    assert(dot_raw(u, u) == FX_ONE * FX_ONE) by (nonlinear_arith)
        requires
            dot_raw(u, u) * (l * l) == (FX_ONE * FX_ONE) * dot_raw(v, v),
            dot_raw(v, v) == l * l,
            l > 0,
    ;
}

/// Reflection preserves the incidence product with the mirror normal up
/// to sign: dot(reflect(v, n), n) == -dot(v, n), for an exactly unit
/// normal n and inputs on which every fixed-point step is exact.  (With
/// rounding the two sides differ by a few raw units.)
pub proof fn lemma_reflect_dot(v: V3, n: V3)
    requires
        dot_raw(n, n) == FX_ONE * FX_ONE,
        dot_exact(v, n),
        fits(v3_dot(v, n) + v3_dot(v, n)),
        mul_exact(n.x, fx_add(v3_dot(v, n), v3_dot(v, n))),
        mul_exact(n.y, fx_add(v3_dot(v, n), v3_dot(v, n))),
        mul_exact(n.z, fx_add(v3_dot(v, n), v3_dot(v, n))),
        fits(v.x - fx_mul(n.x, fx_add(v3_dot(v, n), v3_dot(v, n)))),
        fits(v.y - fx_mul(n.y, fx_add(v3_dot(v, n), v3_dot(v, n)))),
        fits(v.z - fx_mul(n.z, fx_add(v3_dot(v, n), v3_dot(v, n)))),
        dot_exact(v3_reflect(v, n), n),
    ensures
        v3_dot(v3_reflect(v, n), n) == fx_neg(v3_dot(v, n)),
{
    let d = v3_dot(v, n);
    lemma_dot_exact(v, n);
    let k = fx_add(d, d);
    assert(k == 2 * d);
    let mx = fx_mul(n.x, k);
    let my = fx_mul(n.y, k);
    let mz = fx_mul(n.z, k);
    lemma_mul_exact(n.x, k);
    lemma_mul_exact(n.y, k);
    lemma_mul_exact(n.z, k);
    let r = v3_reflect(v, n);
    assert(r.x == v.x - mx && r.y == v.y - my && r.z == v.z - mz);
    lemma_dot_exact(r, n);
    // the raw dot of the reflection expands to dot_raw(v, n) - sum(m_i n_i)
    assert(dot_raw(r, n) == dot_raw(v, n) - (mx * n.x + my * n.y + mz * n.z)) by (nonlinear_arith)
        requires
            r.x == v.x - mx,
            r.y == v.y - my,
            r.z == v.z - mz,
    ;
    // sum(m_i n_i) scaled by FX_ONE is k * dot_raw(n, n) = k * FX_ONE^2
    assert(FX_ONE * (mx * n.x) == k * (n.x * n.x)) by (nonlinear_arith)
        requires
            FX_ONE * mx == n.x * k,
    ;
    assert(FX_ONE * (my * n.y) == k * (n.y * n.y)) by (nonlinear_arith)
        requires
            FX_ONE * my == n.y * k,
    ;
    assert(FX_ONE * (mz * n.z) == k * (n.z * n.z)) by (nonlinear_arith)
        requires
            FX_ONE * mz == n.z * k,
    ;
    assert(FX_ONE * (mx * n.x + my * n.y + mz * n.z) == k * dot_raw(n, n)) by (nonlinear_arith)
        requires
            FX_ONE * (mx * n.x) == k * (n.x * n.x),
            FX_ONE * (my * n.y) == k * (n.y * n.y),
            FX_ONE * (mz * n.z) == k * (n.z * n.z),
            dot_raw(n, n) == n.x * n.x + n.y * n.y + n.z * n.z,
    ;
    assert(mx * n.x + my * n.y + mz * n.z == k * FX_ONE) by (nonlinear_arith)
        requires
            FX_ONE * (mx * n.x + my * n.y + mz * n.z) == k * (FX_ONE * FX_ONE),
    ;
    assert(dot_raw(r, n) == FX_ONE * d - 2 * d * FX_ONE) by (nonlinear_arith)
        requires
            dot_raw(r, n) == dot_raw(v, n) - k * FX_ONE,
            dot_raw(v, n) == FX_ONE * d,
            k == 2 * d,
    ;
    assert(FX_ONE * v3_dot(r, n) == FX_ONE * (-d)) by (nonlinear_arith)
        requires
            FX_ONE * v3_dot(r, n) == dot_raw(r, n),
            dot_raw(r, n) == FX_ONE * d - 2 * d * FX_ONE,
    ;
    assert(v3_dot(r, n) == -d) by (nonlinear_arith)
        requires
            FX_ONE * v3_dot(r, n) == FX_ONE * (-d),
    ;
}

/// Reflection negates the incidence product within a small tolerance, with
/// no exactness assumptions: for a normal that is unit at the raw dot
/// product and coordinates within the stated bound, the rounding of each
/// fixed-point step moves dot(reflect(v, n), n) + dot(v, n) by at most
/// fifteen raw units.
pub proof fn lemma_reflect_dot_bound(v: V3, n: V3)
    requires
        dot_raw(n, n) == FX_ONE * FX_ONE,
        -0x4000000000 <= v.x <= 0x4000000000,
        -0x4000000000 <= v.y <= 0x4000000000,
        -0x4000000000 <= v.z <= 0x4000000000,
    ensures
        -15 <= v3_dot(v3_reflect(v, n), n) + v3_dot(v, n) <= 15,
{
    // unit normal components are bounded by one
    assert(-65536 <= n.x <= 65536 && -65536 <= n.y <= 65536 && -65536 <= n.z <= 65536)
        by (nonlinear_arith)
        requires
            n.x * n.x + n.y * n.y + n.z * n.z == 65536 * 65536,
    ;

    // the rounded dot product d stays within 3 units of dot_raw(v, n)
    let px = v.x * n.x;
    let py = v.y * n.y;
    let pz = v.z * n.z;
    assert(-0x40000000000000 <= px <= 0x40000000000000 && -0x40000000000000 <= py
        <= 0x40000000000000 && -0x40000000000000 <= pz <= 0x40000000000000) by (nonlinear_arith)
        requires
            px == v.x * n.x,
            py == v.y * n.y,
            pz == v.z * n.z,
            -65536 <= n.x <= 65536,
            -65536 <= n.y <= 65536,
            -65536 <= n.z <= 65536,
            -0x4000000000 <= v.x <= 0x4000000000,
            -0x4000000000 <= v.y <= 0x4000000000,
            -0x4000000000 <= v.z <= 0x4000000000,
    ;
    let tx = tdiv(px, 65536);
    let ty = tdiv(py, 65536);
    let tz = tdiv(pz, 65536);
    lemma_tdiv_remainder(px, 65536);
    lemma_tdiv_remainder(py, 65536);
    lemma_tdiv_remainder(pz, 65536);
    assert(-0x8000000000 <= tx <= 0x8000000000 && -0x8000000000 <= ty <= 0x8000000000
        && -0x8000000000 <= tz <= 0x8000000000) by (nonlinear_arith)
        requires
            px - 65536 < 65536 * tx < px + 65536,
            py - 65536 < 65536 * ty < py + 65536,
            pz - 65536 < 65536 * tz < pz + 65536,
            -0x40000000000000 <= px <= 0x40000000000000,
            -0x40000000000000 <= py <= 0x40000000000000,
            -0x40000000000000 <= pz <= 0x40000000000000,
    ;
    assert(fx_mul(v.x, n.x) == tx && fx_mul(v.y, n.y) == ty && fx_mul(v.z, n.z) == tz);
    let d = v3_dot(v, n);
    assert(d == tx + ty + tz);
    let av = px + py + pz;
    assert(av - 196608 < 65536 * d < av + 196608);

    // scaling by two is exact
    let k = fx_add(d, d);
    assert(k == 2 * d);
    assert(-0x40000000000 <= k <= 0x40000000000);

    // the scaled normal n * k, rounded once per component
    let qx = n.x * k;
    let qy = n.y * k;
    let qz = n.z * k;
    assert(-0x400000000000000 <= qx <= 0x400000000000000 && -0x400000000000000 <= qy
        <= 0x400000000000000 && -0x400000000000000 <= qz <= 0x400000000000000)
        by (nonlinear_arith)
        requires
            qx == n.x * k,
            qy == n.y * k,
            qz == n.z * k,
            -65536 <= n.x <= 65536,
            -65536 <= n.y <= 65536,
            -65536 <= n.z <= 65536,
            -0x40000000000 <= k <= 0x40000000000,
    ;
    let ux = tdiv(qx, 65536);
    let uy = tdiv(qy, 65536);
    let uz = tdiv(qz, 65536);
    lemma_tdiv_remainder(qx, 65536);
    lemma_tdiv_remainder(qy, 65536);
    lemma_tdiv_remainder(qz, 65536);
    assert(-0x80000000000 <= ux <= 0x80000000000 && -0x80000000000 <= uy <= 0x80000000000
        && -0x80000000000 <= uz <= 0x80000000000) by (nonlinear_arith)
        requires
            qx - 65536 < 65536 * ux < qx + 65536,
            qy - 65536 < 65536 * uy < qy + 65536,
            qz - 65536 < 65536 * uz < qz + 65536,
            -0x400000000000000 <= qx <= 0x400000000000000,
            -0x400000000000000 <= qy <= 0x400000000000000,
            -0x400000000000000 <= qz <= 0x400000000000000,
    ;
    assert(fx_mul(n.x, k) == ux && fx_mul(n.y, k) == uy && fx_mul(n.z, k) == uz);

    // the reflected components subtract without saturating
    let r = v3_reflect(v, n);
    assert(r.x == v.x - ux && r.y == v.y - uy && r.z == v.z - uz);
    assert(-0x100000000000 <= r.x <= 0x100000000000 && -0x100000000000 <= r.y <= 0x100000000000
        && -0x100000000000 <= r.z <= 0x100000000000);

    // the rounded dot of the reflection with the normal
    let wx = r.x * n.x;
    let wy = r.y * n.y;
    let wz = r.z * n.z;
    assert(-0x1000000000000000 <= wx <= 0x1000000000000000 && -0x1000000000000000 <= wy
        <= 0x1000000000000000 && -0x1000000000000000 <= wz <= 0x1000000000000000)
        by (nonlinear_arith)
        requires
            wx == r.x * n.x,
            wy == r.y * n.y,
            wz == r.z * n.z,
            -65536 <= n.x <= 65536,
            -65536 <= n.y <= 65536,
            -65536 <= n.z <= 65536,
            -0x100000000000 <= r.x <= 0x100000000000,
            -0x100000000000 <= r.y <= 0x100000000000,
            -0x100000000000 <= r.z <= 0x100000000000,
    ;
    let ex = tdiv(wx, 65536);
    let ey = tdiv(wy, 65536);
    let ez = tdiv(wz, 65536);
    lemma_tdiv_remainder(wx, 65536);
    lemma_tdiv_remainder(wy, 65536);
    lemma_tdiv_remainder(wz, 65536);
    assert(-0x200000000000 <= ex <= 0x200000000000 && -0x200000000000 <= ey <= 0x200000000000
        && -0x200000000000 <= ez <= 0x200000000000) by (nonlinear_arith)
        requires
            wx - 65536 < 65536 * ex < wx + 65536,
            wy - 65536 < 65536 * ey < wy + 65536,
            wz - 65536 < 65536 * ez < wz + 65536,
            -0x1000000000000000 <= wx <= 0x1000000000000000,
            -0x1000000000000000 <= wy <= 0x1000000000000000,
            -0x1000000000000000 <= wz <= 0x1000000000000000,
    ;
    assert(fx_mul(r.x, n.x) == ex && fx_mul(r.y, n.y) == ey && fx_mul(r.z, n.z) == ez);
    let dp = v3_dot(r, n);
    assert(dp == ex + ey + ez);
    let u = wx + wy + wz;
    assert(u - 196608 < 65536 * dp < u + 196608);

    // the raw products of the reflection expand exactly
    assert(wx == px - ux * n.x) by (nonlinear_arith)
        requires
            wx == r.x * n.x,
            r.x == v.x - ux,
            px == v.x * n.x,
    ;
    assert(wy == py - uy * n.y) by (nonlinear_arith)
        requires
            wy == r.y * n.y,
            r.y == v.y - uy,
            py == v.y * n.y,
    ;
    assert(wz == pz - uz * n.z) by (nonlinear_arith)
        requires
            wz == r.z * n.z,
            r.z == v.z - uz,
            pz == v.z * n.z,
    ;

    // each rounding error in n * k, scaled by a normal component, stays
    // below one whole unit squared
    assert(qx * n.x - 0x100000000 < 65536 * (ux * n.x) < qx * n.x + 0x100000000)
        by (nonlinear_arith)
        requires
            qx - 65536 < 65536 * ux < qx + 65536,
            -65536 <= n.x <= 65536,
    ;
    assert(qy * n.y - 0x100000000 < 65536 * (uy * n.y) < qy * n.y + 0x100000000)
        by (nonlinear_arith)
        requires
            qy - 65536 < 65536 * uy < qy + 65536,
            -65536 <= n.y <= 65536,
    ;
    assert(qz * n.z - 0x100000000 < 65536 * (uz * n.z) < qz * n.z + 0x100000000)
        by (nonlinear_arith)
        requires
            qz - 65536 < 65536 * uz < qz + 65536,
            -65536 <= n.z <= 65536,
    ;

    // without rounding, the scaled sum is exactly k times the unit normal
    // squared
    assert(qx * n.x + qy * n.y + qz * n.z == k * (65536 * 65536)) by (nonlinear_arith)
        requires
            qx == n.x * k,
            qy == n.y * k,
            qz == n.z * k,
            n.x * n.x + n.y * n.y + n.z * n.z == 65536 * 65536,
    ;

    // assemble the chain of bounds
    let m = ux * n.x + uy * n.y + uz * n.z;
    assert(k * (65536 * 65536) - 0x300000000 < 65536 * m < k * (65536 * 65536) + 0x300000000);
    assert(65536 * k - 196608 < m < 65536 * k + 196608) by (nonlinear_arith)
        requires
            k * (65536 * 65536) - 0x300000000 < 65536 * m < k * (65536 * 65536) + 0x300000000,
    ;
    assert(u == av - m);
    assert(65536 * k == 2 * (65536 * d)) by (nonlinear_arith)
        requires
            k == 2 * d,
    ;
    assert(2 * av - 393216 < 65536 * k < 2 * av + 393216);
    assert(-av - 589824 < u < -av + 589824);
    assert(-av - 786432 < 65536 * dp < -av + 786432);
    assert(-(65536 * d) - 196608 < -av < -(65536 * d) + 196608);
    assert(-983040 < 65536 * dp + 65536 * d < 983040);
    assert(-15 <= dp + d <= 15) by (nonlinear_arith)
        requires
            -983040 < 65536 * dp + 65536 * d < 983040,
    ;
}

pub fn reflect(v: &Vec3, n: &Vec3) -> (r: Vec3)
    ensures
        r@ == v3_reflect(v@, n@),
{
    let d = dot(v, n);
    v.sub(n.scale(d.add(d)))
}

pub fn refract(uv: &Vec3, n: &Vec3, etai_over_etat: Fx) -> (r: Vec3)
    ensures
        r@ == v3_refract(uv@, n@, etai_over_etat@),
{
    let cos_theta = dot(&uv.neg(), n).min(Fx::one());
    let r_out_perp = uv.add(n.scale(cos_theta)).scale(etai_over_etat);
    let par_len = Fx::one().sub(r_out_perp.length_squared()).abs().sqrt().neg();
    r_out_perp.add(n.scale(par_len))
}

} // verus!
