//! Material scattering models: diffuse (Lambertian), reflective with fuzz
//! (Metal), and refractive (Dielectric).  Each scatter contract pins the
//! produced ray and attenuation down to the drawn random sample.

use vstd::prelude::*;
use crate::fixed::{
    Fx, FX_ONE, fx_add, fx_sub, fx_mul, fx_div, fx_min, fx_max, fx_sqrt,
};
use crate::vec3::{
    V3, v3, v3_add, v3_scale, v3_dot, v3_neg, v3_near_zero, v3_unit, v3_reflect,
    v3_refract, is_unit_sample, dot, reflect, refract, unit_vector, random_unit_vector,
};
use crate::ray::{Ray, RayV};
use crate::hittable::{HitRecord, HitV};
use crate::color::Color;
use crate::rt_weekend::random_fx;

verus! {

/// Mathematical view of a material.
pub ghost enum MatV {
    Lambertian { albedo: V3 },
    Metal { albedo: V3, fuzz: int },
    Dielectric { ri: int },
}

/// Diffuse material: scatters toward normal + random unit vector.
#[derive(Clone, Copy, Debug)]
pub struct Lambertian {
    albedo: Color,
}

impl View for Lambertian {
    type V = V3;

    closed spec fn view(&self) -> V3 {
        self.albedo@
    }
}

/// What Lambertian scattering guarantees: it always scatters; the ray
/// starts at the hit point with the albedo as attenuation; its direction
/// is normal + random unit sample, or the normal itself when that sum
/// degenerates to zero — so for a non-zero normal the scattered direction
/// is never the zero vector.
pub open spec fn lambertian_post(albedo: V3, rec: HitV, att: V3, sc: RayV, b: bool) -> bool {
    &&& b
    &&& att == albedo
    &&& sc.orig == rec.p
    &&& sc.tm == 0
    &&& exists|u: V3|
        is_unit_sample(u) && sc.dir == (if v3_near_zero(v3_add(rec.normal, u)) {
            rec.normal
        } else {
            v3_add(rec.normal, u)
        })
    &&& !v3_near_zero(rec.normal) ==> !v3_near_zero(sc.dir)
}

impl Lambertian {
    pub fn new(albedo: Color) -> (r: Lambertian)
        ensures
            r@ == albedo@,
    {
        Lambertian { albedo }
    }

    pub fn scatter(&self, _r_in: &Ray, rec: &HitRecord, attenuation: &mut Color, scattered: &mut Ray) -> (b: bool)
        ensures
            lambertian_post(self@, rec@, final(attenuation)@, final(scattered)@, b),
    {
        let u = random_unit_vector();
        let mut scatter_direction = rec.normal.add(u);
        if scatter_direction.near_zero() {
            scatter_direction = rec.normal;
        }
        *scattered = Ray::new(rec.p, scatter_direction);
        *attenuation = self.albedo;
        proof {
            assert(is_unit_sample(u@) && final(scattered)@.dir == (if v3_near_zero(
                v3_add(rec@.normal, u@),
            ) {
                rec@.normal
            } else {
                v3_add(rec@.normal, u@)
            }));
        }
        true
    }
}

/// Ghost pair for the metal view.
pub ghost struct MetalV {
    pub albedo: V3,
    pub fuzz: int,
}

/// Reflective material with a fuzz factor clamped into [0, 1].
#[derive(Clone, Copy, Debug)]
pub struct Metal {
    albedo: Color,
    fuzz: Fx,
}

impl View for Metal {
    type V = MetalV;

    closed spec fn view(&self) -> MetalV {
        MetalV { albedo: self.albedo@, fuzz: self.fuzz@ }
    }
}

/// What metal scattering guarantees: the ray starts at the hit point with
/// the albedo as attenuation; its direction is the unit reflection plus
/// fuzz * random unit sample; light continues only if that direction still
/// points away from the surface.
pub open spec fn metal_post(albedo: V3, fuzz: int, r_in: RayV, rec: HitV, att: V3, sc: RayV, b: bool) -> bool {
    &&& att == albedo
    &&& sc.orig == rec.p
    &&& sc.tm == 0
    &&& exists|u: V3|
        is_unit_sample(u) && sc.dir == v3_add(
            v3_unit(v3_reflect(r_in.dir, rec.normal)),
            v3_scale(u, fuzz),
        )
    &&& b == (v3_dot(sc.dir, rec.normal) > 0)
}

impl Metal {
    pub fn new(albedo: Color, fuzz: Fx) -> (r: Metal)
        ensures
            r@.albedo == albedo@,
            r@.fuzz == fx_min(fx_max(fuzz@, 0), FX_ONE as int),
    {
        Metal { albedo, fuzz: fuzz.max(Fx::zero()).min(Fx::one()) }
    }

    /// A metal without fuzz.
    pub fn shiny(albedo: Color) -> (r: Metal)
        ensures
            r@.albedo == albedo@,
            r@.fuzz == 0,
    {
        Metal { albedo, fuzz: Fx::zero() }
    }

    pub fn scatter(&self, r_in: &Ray, rec: &HitRecord, attenuation: &mut Color, scattered: &mut Ray) -> (b: bool)
        ensures
            metal_post(self@.albedo, self@.fuzz, r_in@, rec@, final(attenuation)@, final(scattered)@, b),
    {
        let reflected = reflect(r_in.direction(), &rec.normal);
        let u = random_unit_vector();
        let fuzzed = unit_vector(&reflected).add(u.scale(self.fuzz));
        *scattered = Ray::new(rec.p, fuzzed);
        *attenuation = self.albedo;
        let b = dot(scattered.direction(), &rec.normal).gt(Fx::zero());
        proof {
            assert(is_unit_sample(u@) && final(scattered)@.dir == v3_add(
                v3_unit(v3_reflect(r_in@.dir, rec@.normal)),
                v3_scale(u@, self@.fuzz),
            ));
        }
        b
    }
}

/// Refractive material, described by its refractive index over the index
/// of the enclosing medium.
#[derive(Clone, Copy, Debug)]
pub struct Dielectric {
    refraction_index: Fx,
}

impl View for Dielectric {
    type V = int;

    closed spec fn view(&self) -> int {
        self.refraction_index@
    }
}

/// Schlick's reflectance approximation:
/// r0 + (1 - r0) * (1 - cos)^5 with r0 = ((1 - ri) / (1 + ri))^2.
pub open spec fn schlick(cosine: int, refraction_index: int) -> int {
    let r0 = fx_div(fx_sub(FX_ONE as int, refraction_index), fx_add(FX_ONE as int, refraction_index));
    let r0sq = fx_mul(r0, r0);
    let p = fx_sub(FX_ONE as int, cosine);
    let p5 = fx_mul(fx_mul(fx_mul(p, p), fx_mul(p, p)), p);
    fx_add(r0sq, fx_mul(fx_sub(FX_ONE as int, r0sq), p5))
}

/// The effective index ratio at the struck face.
pub open spec fn dielectric_ratio(ri: int, front_face: bool) -> int {
    if front_face {
        fx_div(FX_ONE as int, ri)
    } else {
        ri
    }
}

/// The direction a dielectric chooses for the uniform draw u: reflect
/// past the critical angle or when the Schlick reflectance exceeds the
/// draw, refract otherwise.
pub open spec fn dielectric_choice(ud: V3, normal: V3, ri: int, u: int) -> V3 {
    let cos_theta = fx_min(v3_dot(v3_neg(ud), normal), FX_ONE as int);
    let sin_theta = fx_sqrt(fx_sub(FX_ONE as int, fx_mul(cos_theta, cos_theta)));
    if fx_mul(ri, sin_theta) > FX_ONE || schlick(cos_theta, ri) > u {
        v3_reflect(ud, normal)
    } else {
        v3_refract(ud, normal, ri)
    }
}

/// What dielectric scattering guarantees: it always scatters, with unit
/// attenuation, from the hit point.  The direction is the reflection or
/// the refraction of the unit incoming direction, selected by comparing
/// the Schlick reflectance against a uniform draw, and past the critical
/// angle (total internal reflection) it is always the reflection.
pub open spec fn dielectric_post(ri_idx: int, r_in: RayV, rec: HitV, att: V3, sc: RayV, b: bool) -> bool {
    let ri = dielectric_ratio(ri_idx, rec.front_face);
    let ud = v3_unit(r_in.dir);
    let cos_theta = fx_min(v3_dot(v3_neg(ud), rec.normal), FX_ONE as int);
    let sin_theta = fx_sqrt(fx_sub(FX_ONE as int, fx_mul(cos_theta, cos_theta)));
    &&& b
    &&& att == v3(FX_ONE as int, FX_ONE as int, FX_ONE as int)
    &&& sc.orig == rec.p
    &&& sc.tm == 0
    &&& exists|u: int| 0 <= u < FX_ONE && sc.dir == dielectric_choice(ud, rec.normal, ri, u)
    &&& fx_mul(ri, sin_theta) > FX_ONE ==> sc.dir == v3_reflect(ud, rec.normal)
}

impl Dielectric {
    pub fn new(refraction_index: Fx) -> (r: Dielectric)
        ensures
            r@ == refraction_index@,
    {
        Dielectric { refraction_index }
    }

    fn reflectance(cosine: Fx, refraction_index: Fx) -> (r: Fx)
        ensures
            r@ == schlick(cosine@, refraction_index@),
    {
        let r0 = Fx::one().sub(refraction_index).div(Fx::one().add(refraction_index));
        let r0sq = r0.mul(r0);
        let p = Fx::one().sub(cosine);
        let p5 = p.mul(p).mul(p.mul(p)).mul(p);
        r0sq.add(Fx::one().sub(r0sq).mul(p5))
    }

    pub fn scatter(&self, r_in: &Ray, rec: &HitRecord, attenuation: &mut Color, scattered: &mut Ray) -> (b: bool)
        ensures
            dielectric_post(self@, r_in@, rec@, final(attenuation)@, final(scattered)@, b),
    {
        *attenuation = Color::new(Fx::one(), Fx::one(), Fx::one());

        let ri = if rec.front_face {
            Fx::one().div(self.refraction_index)
        } else {
            self.refraction_index
        };

        let unit_direction = unit_vector(r_in.direction());
        let cos_theta = dot(&unit_direction.neg(), &rec.normal).min(Fx::one());
        let sin_theta = Fx::one().sub(cos_theta.mul(cos_theta)).sqrt();

        let cannot_refract = ri.mul(sin_theta).gt(Fx::one());

        let ghost mut draw: int = 0;
        let direction = if cannot_refract {
            reflect(&unit_direction, &rec.normal)
        } else {
            let rnd = random_fx();
            proof {
                draw = rnd@;
            }
            if Dielectric::reflectance(cos_theta, ri).gt(rnd) {
                reflect(&unit_direction, &rec.normal)
            } else {
                refract(&unit_direction, &rec.normal, ri)
            }
        };

        *scattered = Ray::new(rec.p, direction);
        proof {
            let riv = dielectric_ratio(self@, rec@.front_face);
            let ud = v3_unit(r_in@.dir);
            assert(0 <= draw < FX_ONE && final(scattered)@.dir == dielectric_choice(
                ud,
                rec@.normal,
                riv,
                draw,
            ));
        }
        true
    }
}

/// What scattering guarantees, for whichever material variant was struck.
/// Opaque: callers of `Material::scatter` carry the predicate as stated and
/// open it only where a particular variant is in play.
#[verifier::opaque]
pub open spec fn scatter_post(m: MatV, r_in: RayV, rec: HitV, att: V3, sc: RayV, b: bool) -> bool {
    match m {
        MatV::Lambertian { albedo } => lambertian_post(albedo, rec, att, sc, b),
        MatV::Metal { albedo, fuzz } => metal_post(albedo, fuzz, r_in, rec, att, sc, b),
        MatV::Dielectric { ri } => dielectric_post(ri, r_in, rec, att, sc, b),
    }
}

/// The closed set of material variants; a primitive stores one of these
/// and scattering dispatches on it.
#[derive(Clone, Copy, Debug)]
pub enum Material {
    Lambertian(Lambertian),
    Metal(Metal),
    Dielectric(Dielectric),
}

impl View for Material {
    type V = MatV;

    open spec fn view(&self) -> MatV {
        match *self {
            Material::Lambertian(m) => MatV::Lambertian { albedo: m@ },
            Material::Metal(m) => MatV::Metal { albedo: m@.albedo, fuzz: m@.fuzz },
            Material::Dielectric(m) => MatV::Dielectric { ri: m@ },
        }
    }
}

impl Material {
    /// Decide whether light continues after striking a surface with this
    /// material, and in what direction and attenuation.
    pub fn scatter(&self, r_in: &Ray, rec: &HitRecord, attenuation: &mut Color, scattered: &mut Ray) -> (b: bool)
        ensures
            scatter_post(self@, r_in@, rec@, final(attenuation)@, final(scattered)@, b),
    {
        proof {
            reveal(scatter_post);
        }
        match self {
            Material::Lambertian(m) => m.scatter(r_in, rec, attenuation, scattered),
            Material::Metal(m) => m.scatter(r_in, rec, attenuation, scattered),
            Material::Dielectric(m) => m.scatter(r_in, rec, attenuation, scattered),
        }
    }
}

} // verus!
