//! The sphere primitive, static or moving, with closed-form ray
//! intersection.  `sphere_hit` is the exact mathematical account of the
//! test; the executable `hit` is proved to return precisely it.

use vstd::prelude::*;
use crate::fixed::{
    Fx, fx_add, fx_sub, fx_mul, fx_div, fx_max, fx_sqrt, tdiv, FX_ONE,
    lemma_tdiv_monotone, lemma_tdiv_abs_le, lemma_tdiv_mul_exact, lemma_tdiv_neg,
    lemma_isqrt_unique,
};
use crate::vec3::{
    Vec3, Point3, V3, v3, v3_sub, v3_scale, v3_div_s, v3_dot, v3_len_sq, dot, dot_raw,
    mul_exact, dot_exact, lemma_mul_exact, lemma_dot_exact,
};
use crate::ray::{Ray, RayV, ray_at};
use crate::interval::{Interval, i_surrounds};
use crate::hittable::{HitRecord, HitV, face_front, face_normal};
use crate::material::{Material, MatV};

verus! {

/// Mathematical view of a sphere: the center as a ray from the position at
/// time 0 toward the position at time 1, a non-negative radius, and the
/// surface material.
pub ghost struct SphereV {
    pub center: RayV,
    pub radius: int,
    pub mat: MatV,
}

/// The discriminant h^2 - a*c of the ray/sphere quadratic.
pub open spec fn sphere_disc(oc: V3, d: V3, radius: int) -> int {
    let a = v3_len_sq(d);
    let h = v3_dot(d, oc);
    let c = fx_sub(v3_len_sq(oc), fx_mul(radius, radius));
    fx_sub(fx_mul(h, h), fx_mul(a, c))
}

/// The accepted parametric distance, if any: the nearer root when it lies
/// strictly inside (tmin, tmax), else the farther root when it does, else
/// none.  A non-negative discriminant is required for any root.
pub open spec fn sphere_root(oc: V3, d: V3, radius: int, tmin: int, tmax: int) -> Option<int> {
    let a = v3_len_sq(d);
    let h = v3_dot(d, oc);
    let disc = sphere_disc(oc, d, radius);
    if disc < 0 {
        None
    } else {
        let sqrt_d = fx_sqrt(disc);
        let root1 = fx_div(fx_sub(h, sqrt_d), a);
        if i_surrounds(tmin, tmax, root1) {
            Some(root1)
        } else {
            let root2 = fx_div(fx_add(h, sqrt_d), a);
            if i_surrounds(tmin, tmax, root2) {
                Some(root2)
            } else {
                None
            }
        }
    }
}

/// The full intersection result: on a hit, the record holds the point at
/// the accepted distance, the outward normal (point - center) / radius
/// corrected to face the ray, and the sphere's material.  Opaque: callers
/// work through `Sphere::hit`'s contract and the lemmas below, which keeps
/// their queries small; proofs that need the formula reveal it.
#[verifier::opaque]
pub open spec fn sphere_hit(s: SphereV, r: RayV, tmin: int, tmax: int) -> Option<HitV> {
    let cc = ray_at(s.center, r.tm);
    let oc = v3_sub(cc, r.orig);
    match sphere_root(oc, r.dir, s.radius, tmin, tmax) {
        None => None,
        Some(t) => {
            let p = ray_at(r, t);
            let outward = v3_div_s(v3_sub(p, cc), s.radius);
            Some(
                HitV {
                    p,
                    normal: face_normal(r.dir, outward),
                    t,
                    front_face: face_front(r.dir, outward),
                    mat: s.mat,
                },
            )
        },
    }
}

#[derive(Clone, Copy, Debug)]
pub struct Sphere {
    center: Ray,
    radius: Fx,
    mat: Material,
}

impl View for Sphere {
    type V = SphereV;

    closed spec fn view(&self) -> SphereV {
        SphereV { center: self.center@, radius: self.radius@, mat: self.mat@ }
    }
}

impl Sphere {
    /// A sphere that does not move; a negative radius is clamped to zero.
    pub fn stationary(static_center: Point3, radius: Fx, mat: Material) -> (r: Sphere)
        ensures
            r@ == (SphereV {
                center: RayV { orig: static_center@, dir: v3(0, 0, 0), tm: 0 },
                radius: fx_max(radius@, 0),
                mat: mat@,
            }),
    {
        Sphere {
            center: Ray::new(static_center, Vec3::default()),
            radius: radius.max(Fx::zero()),
            mat,
        }
    }

    /// A sphere moving from `center_1` (time 0) to `center_2` (time 1);
    /// a negative radius is clamped to zero.
    pub fn moving(center_1: Point3, center_2: Point3, radius: Fx, mat: Material) -> (r: Sphere)
        ensures
            r@ == (SphereV {
                center: RayV { orig: center_1@, dir: v3_sub(center_2@, center_1@), tm: 0 },
                radius: fx_max(radius@, 0),
                mat: mat@,
            }),
    {
        Sphere {
            center: Ray::new(center_1, center_2.sub(center_1)),
            radius: radius.max(Fx::zero()),
            mat,
        }
    }

    /// Test the ray against this sphere over the window `ray_t`; on a hit,
    /// fill the record, else leave it untouched.
    pub fn hit(&self, r: &Ray, ray_t: Interval, rec: &mut HitRecord) -> (b: bool)
        ensures
            b == (sphere_hit(self@, r@, ray_t.min@, ray_t.max@) is Some),
            match sphere_hit(self@, r@, ray_t.min@, ray_t.max@) {
                Some(h) => final(rec)@ == h,
                None => *final(rec) == *old(rec),
            },
    {
        proof {
            reveal(sphere_hit);
        }
        let current_center = self.center.at(r.time());
        let oc = current_center.sub(*r.origin());

        let a = r.direction().length_squared();
        let h = dot(r.direction(), &oc);
        let c = oc.length_squared().sub(self.radius.mul(self.radius));

        let discriminant = h.mul(h).sub(a.mul(c));

        if discriminant.lt(Fx::zero()) {
            return false;
        }

        let sqrt_d = discriminant.sqrt();

        // nearest root in the acceptable range
        let mut root = h.sub(sqrt_d).div(a);
        if !ray_t.surrounds(root) {
            root = h.add(sqrt_d).div(a);

            if !ray_t.surrounds(root) {
                return false;
            }
        }

        rec.t = root;
        rec.p = r.at(rec.t);

        let outward_normal = rec.p.sub(current_center).div(self.radius);
        rec.set_face_normal(r, &outward_normal);

        rec.mat = self.mat;

        true
    }
}

/// The accepted distance always lies strictly inside the window.
pub proof fn lemma_sphere_hit_in_window(s: SphereV, r: RayV, tmin: int, tmax: int)
    ensures
        match sphere_hit(s, r, tmin, tmax) {
            Some(h) => tmin < h.t < tmax,
            None => true,
        },
{
    reveal(sphere_hit);
}

/// Both candidate roots are ordered: (h - sqrt) / a <= (h + sqrt) / a.
proof fn lemma_roots_ordered(h: int, sqrt_d: int, a: int)
    requires
        sqrt_d >= 0,
        a >= 0,
    ensures
        fx_div(fx_sub(h, sqrt_d), a) <= fx_div(fx_add(h, sqrt_d), a),
{
    if a > 0 {
        lemma_tdiv_monotone(fx_sub(h, sqrt_d) * FX_ONE, fx_add(h, sqrt_d) * FX_ONE, a);
    }
}

/// Shrinking the upper end of the window keeps exactly the hits that were
/// nearer than the new end: the scene aggregate relies on this to track
/// the globally nearest hit.
pub proof fn lemma_sphere_hit_shrink(s: SphereV, r: RayV, tmin: int, c: int, tmax: int)
    requires
        c <= tmax,
    ensures
        sphere_hit(s, r, tmin, c) == (match sphere_hit(s, r, tmin, tmax) {
            Some(h) => if h.t < c {
                Some(h)
            } else {
                None::<HitV>
            },
            None => None::<HitV>,
        }),
{
    reveal(sphere_hit);
    let cc = ray_at(s.center, r.tm);
    let oc = v3_sub(cc, r.orig);
    let d = r.dir;
    let a = v3_len_sq(d);
    let h = v3_dot(d, oc);
    let disc = sphere_disc(oc, d, s.radius);
    lemma_len_sq_nonneg(d);
    if disc >= 0 {
        let sqrt_d = fx_sqrt(disc);
        let root1 = fx_div(fx_sub(h, sqrt_d), a);
        let root2 = fx_div(fx_add(h, sqrt_d), a);
        lemma_roots_ordered(h, sqrt_d, a);
        assert(root1 <= root2);
    }
}

/// Coordinate bound under which the translation argument meets no
/// saturation: well inside the raw range.
pub const TRANS_BOUND: i64 = 0x4000000000;

/// All three coordinates lie within the translation bound.
pub open spec fn small3(v: V3) -> bool {
    &&& -TRANS_BOUND <= v.x <= TRANS_BOUND
    &&& -TRANS_BOUND <= v.y <= TRANS_BOUND
    &&& -TRANS_BOUND <= v.z <= TRANS_BOUND
}

/// The view of a stationary sphere.
pub open spec fn stationary_sphere(center: V3, radius: int, mat: MatV) -> SphereV {
    SphereV { center: RayV { orig: center, dir: v3(0, 0, 0), tm: 0 }, radius, mat }
}

/// The ray moved by -center.
pub open spec fn translated_ray(r: RayV, center: V3) -> RayV {
    RayV { orig: v3_sub(r.orig, center), dir: r.dir, tm: r.tm }
}

/// Sphere intersection is translation-consistent: testing a ray against a
/// stationary sphere at center C gives the same distance, face flag and
/// normal as testing the ray translated by -C against the sphere at the
/// origin, and the hit points differ exactly by C.  The bounds keep every
/// subtraction away from saturation.
pub proof fn lemma_sphere_hit_translation(
    center: V3,
    radius: int,
    mat: MatV,
    r: RayV,
    tmin: int,
    tmax: int,
)
    requires
        small3(center),
        small3(r.orig),
        small3(r.dir),
        match sphere_hit(stationary_sphere(center, radius, mat), r, tmin, tmax) {
            Some(h) => -TRANS_BOUND <= h.t <= TRANS_BOUND,
            None => true,
        },
    ensures
        match (
            sphere_hit(stationary_sphere(center, radius, mat), r, tmin, tmax),
            sphere_hit(stationary_sphere(v3(0, 0, 0), radius, mat), translated_ray(r, center), tmin, tmax),
        ) {
            (None, None) => true,
            (Some(h1), Some(h2)) => {
                &&& h2.t == h1.t
                &&& h2.normal == h1.normal
                &&& h2.front_face == h1.front_face
                &&& h2.p == v3_sub(h1.p, center)
                &&& h2.mat == h1.mat
            },
            _ => false,
        },
{
    reveal(sphere_hit);
    let s1 = stationary_sphere(center, radius, mat);
    let s2 = stationary_sphere(v3(0, 0, 0), radius, mat);
    let r2 = translated_ray(r, center);
    let d = r.dir;

    // a stationary center does not move: scaling the zero vector is exact
    assert(0 * r.tm == 0) by (nonlinear_arith);
    let cc1 = ray_at(s1.center, r.tm);
    assert(cc1 == center);
    let cc2 = ray_at(s2.center, r2.tm);
    assert(cc2 == v3(0, 0, 0));

    let oc1 = v3_sub(cc1, r.orig);
    let oc2 = v3_sub(cc2, r2.orig);
    assert(oc1 == oc2);

    assert(sphere_root(oc1, d, radius, tmin, tmax) == sphere_root(oc2, r2.dir, radius, tmin, tmax));

    match sphere_root(oc1, d, radius, tmin, tmax) {
        None => {
        },
        Some(t) => {
            // the step t * dir stays far from saturation
            assert(-TRANS_BOUND * TRANS_BOUND <= d.x * t <= TRANS_BOUND * TRANS_BOUND)
                by (nonlinear_arith)
                requires
                    -TRANS_BOUND <= d.x <= TRANS_BOUND,
                    -TRANS_BOUND <= t <= TRANS_BOUND,
            ;
            assert(-TRANS_BOUND * TRANS_BOUND <= d.y * t <= TRANS_BOUND * TRANS_BOUND)
                by (nonlinear_arith)
                requires
                    -TRANS_BOUND <= d.y <= TRANS_BOUND,
                    -TRANS_BOUND <= t <= TRANS_BOUND,
            ;
            assert(-TRANS_BOUND * TRANS_BOUND <= d.z * t <= TRANS_BOUND * TRANS_BOUND)
                by (nonlinear_arith)
                requires
                    -TRANS_BOUND <= d.z <= TRANS_BOUND,
                    -TRANS_BOUND <= t <= TRANS_BOUND,
            ;
            assert(TRANS_BOUND * TRANS_BOUND == 0x10000000000000000000) by (nonlinear_arith);
            lemma_tdiv_abs_le(d.x * t, FX_ONE as int, 0x10000000000000000000);
            lemma_tdiv_abs_le(d.y * t, FX_ONE as int, 0x10000000000000000000);
            lemma_tdiv_abs_le(d.z * t, FX_ONE as int, 0x10000000000000000000);
            let step = v3_scale(d, t);
            let p1 = ray_at(r, t);
            let p2 = ray_at(r2, t);
            assert(p2 == v3_sub(p1, center));
            assert(v3_sub(p1, cc1) == v3_sub(p2, cc2));
        },
    }
}

/// A ray aimed with a unit direction at the center of a sphere of radius
/// rr from distance dist > rr hits at exactly t = dist - rr, on the front
/// face, and the normal there is exactly the reversed ray direction.  The
/// exactness hypotheses confine the statement to inputs where no
/// fixed-point step rounds; with rounding, t lands within a few raw units
/// of dist - rr.
#[verifier::rlimit(100)]
pub proof fn lemma_aimed_ray_hits_at_distance(
    o: V3,
    d: V3,
    c: V3,
    dist: int,
    rr: int,
    mat: MatV,
    tm: int,
    tmin: int,
    tmax: int,
)
    requires
        small3(o),
        small3(c),
        0 < rr < dist <= TRANS_BOUND,
        dot_raw(d, d) == FX_ONE * FX_ONE,
        dot_exact(d, d),
        (v3_sub(c, o)).x * FX_ONE == dist * d.x,
        (v3_sub(c, o)).y * FX_ONE == dist * d.y,
        (v3_sub(c, o)).z * FX_ONE == dist * d.z,
        dot_exact(d, v3_sub(c, o)),
        dot_exact(v3_sub(c, o), v3_sub(c, o)),
        mul_exact(dist, dist),
        mul_exact(rr, rr),
        mul_exact(d.x, dist - rr),
        mul_exact(d.y, dist - rr),
        mul_exact(d.z, dist - rr),
        i_surrounds(tmin, tmax, dist - rr),
    ensures
        match sphere_hit(
            stationary_sphere(c, rr, mat),
            RayV { orig: o, dir: d, tm },
            tmin,
            tmax,
        ) {
            Some(h) => h.t == dist - rr && h.front_face && h.normal == v3(-d.x, -d.y, -d.z),
            None => false,
        },
{
    reveal(sphere_hit);
    let s = stationary_sphere(c, rr, mat);
    let r = RayV { orig: o, dir: d, tm };
    let oc = v3_sub(c, o);

    // the direction components are bounded by one unit
    assert(-FX_ONE <= d.x <= FX_ONE && -FX_ONE <= d.y <= FX_ONE && -FX_ONE <= d.z <= FX_ONE)
        by (nonlinear_arith)
        requires
            d.x * d.x + d.y * d.y + d.z * d.z == FX_ONE * FX_ONE,
    ;

    // a stationary center does not move
    assert(0 * tm == 0) by (nonlinear_arith);
    assert(ray_at(s.center, tm) == c);
    assert(v3_sub(ray_at(s.center, tm), o) == oc);

    // a = |d|^2 is exactly one
    let a = v3_len_sq(d);
    lemma_dot_exact(d, d);
    assert(a == FX_ONE) by (nonlinear_arith)
        requires
            FX_ONE * a == FX_ONE * FX_ONE,
    ;

    // h = dot(d, oc) is exactly dist
    let h = v3_dot(d, oc);
    lemma_dot_exact(d, oc);
    assert((d.x * oc.x) * FX_ONE == dist * (d.x * d.x)) by (nonlinear_arith)
        requires
            oc.x * FX_ONE == dist * d.x,
    ;
    assert((d.y * oc.y) * FX_ONE == dist * (d.y * d.y)) by (nonlinear_arith)
        requires
            oc.y * FX_ONE == dist * d.y,
    ;
    assert((d.z * oc.z) * FX_ONE == dist * (d.z * d.z)) by (nonlinear_arith)
        requires
            oc.z * FX_ONE == dist * d.z,
    ;
    assert(dot_raw(d, oc) * FX_ONE == dist * dot_raw(d, d)) by (nonlinear_arith)
        requires
            (d.x * oc.x) * FX_ONE == dist * (d.x * d.x),
            (d.y * oc.y) * FX_ONE == dist * (d.y * d.y),
            (d.z * oc.z) * FX_ONE == dist * (d.z * d.z),
            dot_raw(d, oc) == d.x * oc.x + d.y * oc.y + d.z * oc.z,
            dot_raw(d, d) == d.x * d.x + d.y * d.y + d.z * d.z,
    ;
    assert(h == dist) by (nonlinear_arith)
        requires
            FX_ONE * h == dot_raw(d, oc),
            dot_raw(d, oc) * FX_ONE == dist * (FX_ONE * FX_ONE),
    ;

    // |oc|^2 is exactly dist^2 / FX_ONE
    let c0 = v3_len_sq(oc);
    lemma_dot_exact(oc, oc);
    assert((oc.x * oc.x) * (FX_ONE * FX_ONE) == (dist * dist) * (d.x * d.x)) by (nonlinear_arith)
        requires
            oc.x * FX_ONE == dist * d.x,
    ;
    assert((oc.y * oc.y) * (FX_ONE * FX_ONE) == (dist * dist) * (d.y * d.y)) by (nonlinear_arith)
        requires
            oc.y * FX_ONE == dist * d.y,
    ;
    assert((oc.z * oc.z) * (FX_ONE * FX_ONE) == (dist * dist) * (d.z * d.z)) by (nonlinear_arith)
        requires
            oc.z * FX_ONE == dist * d.z,
    ;
    assert(dot_raw(oc, oc) * (FX_ONE * FX_ONE) == (dist * dist) * dot_raw(d, d))
        by (nonlinear_arith)
        requires
            (oc.x * oc.x) * (FX_ONE * FX_ONE) == (dist * dist) * (d.x * d.x),
            (oc.y * oc.y) * (FX_ONE * FX_ONE) == (dist * dist) * (d.y * d.y),
            (oc.z * oc.z) * (FX_ONE * FX_ONE) == (dist * dist) * (d.z * d.z),
            dot_raw(oc, oc) == oc.x * oc.x + oc.y * oc.y + oc.z * oc.z,
            dot_raw(d, d) == d.x * d.x + d.y * d.y + d.z * d.z,
    ;
    assert(dot_raw(oc, oc) == dist * dist) by (nonlinear_arith)
        requires
            dot_raw(oc, oc) * (FX_ONE * FX_ONE) == (dist * dist) * (FX_ONE * FX_ONE),
    ;
    lemma_mul_exact(dist, dist);
    assert(c0 == fx_mul(dist, dist)) by (nonlinear_arith)
        requires
            FX_ONE * c0 == dist * dist,
            FX_ONE * fx_mul(dist, dist) == dist * dist,
    ;

    // c = |oc|^2 - rr^2, disc = h^2 - a*c = rr^2 / FX_ONE, exactly
    lemma_mul_exact(rr, rr);
    let rsq = fx_mul(rr, rr);
    assert(0 <= rsq <= c0 <= 0x1000000000000000) by (nonlinear_arith)
        requires
            FX_ONE * c0 == dist * dist,
            FX_ONE * rsq == rr * rr,
            0 < rr < dist <= TRANS_BOUND,
    ;
    let cq = fx_sub(c0, rsq);
    assert(cq == c0 - rsq);
    assert(fx_mul(h, h) == c0);
    // multiplying by a == one changes nothing
    lemma_tdiv_mul_exact(cq, FX_ONE as int);
    assert(a * cq == cq * FX_ONE) by (nonlinear_arith)
        requires
            a == FX_ONE,
    ;
    let disc = sphere_disc(oc, d, rr);
    assert(disc == rsq);

    // sqrt(disc) is exactly rr
    assert(0 < rsq) by (nonlinear_arith)
        requires
            FX_ONE * rsq == rr * rr,
            rr > 0,
    ;
    assert(rsq * FX_ONE == rr * rr) by (nonlinear_arith)
        requires
            FX_ONE * rsq == rr * rr,
    ;
    assert(rr * rr < (rr + 1) * (rr + 1)) by (nonlinear_arith)
        requires
            rr > 0,
    ;
    lemma_isqrt_unique((rsq * FX_ONE) as nat, rr as nat);
    let sq = fx_sqrt(disc);
    assert(sq == rr);

    // the near root is exactly dist - rr and lies inside the window
    let t = dist - rr;
    assert(fx_sub(h, sq) == t);
    lemma_tdiv_mul_exact(t, FX_ONE as int);
    assert(fx_sub(h, sq) * FX_ONE == t * FX_ONE);
    let root1 = fx_div(fx_sub(h, sq), a);
    assert(root1 == t);
    assert(sphere_root(oc, d, rr, tmin, tmax) == Some(t));

    // the hit point: p = o + t * d / FX_ONE, componentwise exact
    lemma_mul_exact(d.x, t);
    lemma_mul_exact(d.y, t);
    lemma_mul_exact(d.z, t);
    let step = v3_scale(d, t);
    assert(-TRANS_BOUND <= step.x <= TRANS_BOUND && -TRANS_BOUND <= step.y <= TRANS_BOUND
        && -TRANS_BOUND <= step.z <= TRANS_BOUND) by (nonlinear_arith)
        requires
            FX_ONE * step.x == d.x * t,
            FX_ONE * step.y == d.y * t,
            FX_ONE * step.z == d.z * t,
            -FX_ONE <= d.x <= FX_ONE,
            -FX_ONE <= d.y <= FX_ONE,
            -FX_ONE <= d.z <= FX_ONE,
            0 < t <= TRANS_BOUND,
    ;
    let p = ray_at(r, t);
    assert(p.x == o.x + step.x && p.y == o.y + step.y && p.z == o.z + step.z);

    // p - center is exactly -rr * d / FX_ONE
    let num = v3_sub(p, c);
    assert(num.x == step.x - oc.x && num.y == step.y - oc.y && num.z == step.z - oc.z);
    assert(FX_ONE * num.x == (-d.x) * rr) by (nonlinear_arith)
        requires
            num.x == step.x - oc.x,
            FX_ONE * step.x == d.x * t,
            oc.x * FX_ONE == dist * d.x,
            t == dist - rr,
    ;
    assert(FX_ONE * num.y == (-d.y) * rr) by (nonlinear_arith)
        requires
            num.y == step.y - oc.y,
            FX_ONE * step.y == d.y * t,
            oc.y * FX_ONE == dist * d.y,
            t == dist - rr,
    ;
    assert(FX_ONE * num.z == (-d.z) * rr) by (nonlinear_arith)
        requires
            num.z == step.z - oc.z,
            FX_ONE * step.z == d.z * t,
            oc.z * FX_ONE == dist * d.z,
            t == dist - rr,
    ;

    // the outward normal is exactly -d
    lemma_tdiv_mul_exact(-d.x, rr);
    lemma_tdiv_mul_exact(-d.y, rr);
    lemma_tdiv_mul_exact(-d.z, rr);
    let out = v3_div_s(num, rr);
    assert(out.x == -d.x && out.y == -d.y && out.z == -d.z);

    // the ray faces the front of the surface: dot(d, out) == -|d|^2 < 0
    lemma_tdiv_neg(d.x * d.x, FX_ONE as int);
    lemma_tdiv_neg(d.y * d.y, FX_ONE as int);
    lemma_tdiv_neg(d.z * d.z, FX_ONE as int);
    assert(d.x * out.x == -(d.x * d.x) && d.y * out.y == -(d.y * d.y) && d.z * out.z == -(d.z
        * d.z)) by (nonlinear_arith)
        requires
            out.x == -d.x,
            out.y == -d.y,
            out.z == -d.z,
    ;
    assert(d.x * d.x >= 0 && d.y * d.y >= 0 && d.z * d.z >= 0) by (nonlinear_arith);
    assert(tdiv(d.x * out.x, FX_ONE as int) == -tdiv(d.x * d.x, FX_ONE as int));
    assert(tdiv(d.y * out.y, FX_ONE as int) == -tdiv(d.y * d.y, FX_ONE as int));
    assert(tdiv(d.z * out.z, FX_ONE as int) == -tdiv(d.z * d.z, FX_ONE as int));
    assert(fx_mul(d.x, out.x) == -fx_mul(d.x, d.x));
    assert(fx_mul(d.y, out.y) == -fx_mul(d.y, d.y));
    assert(fx_mul(d.z, out.z) == -fx_mul(d.z, d.z));
    assert(v3_dot(d, out) == -a);
    assert(face_front(d, out));
}

/// A squared length is never negative.
pub proof fn lemma_len_sq_nonneg(v: V3)
    ensures
        v3_len_sq(v) >= 0,
{
    assert(v.x * v.x >= 0) by (nonlinear_arith);
    assert(v.y * v.y >= 0) by (nonlinear_arith);
    assert(v.z * v.z >= 0) by (nonlinear_arith);
}

} // verus!
