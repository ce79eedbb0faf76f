//! The result of a successful ray/geometry intersection: hit point, the
//! normal corrected to face against the incoming ray, the parametric
//! distance, the face orientation flag, and the surface material.

use vstd::prelude::*;
use crate::fixed::Fx;
use crate::vec3::{Vec3, Point3, V3, v3, v3_dot, v3_neg, dot};
use crate::ray::Ray;
use crate::material::{Material, MatV, Lambertian};
use crate::color::Color;

verus! {

/// Mathematical view of a hit record.
pub ghost struct HitV {
    pub p: V3,
    pub normal: V3,
    pub t: int,
    pub front_face: bool,
    pub mat: MatV,
}

/// The ray approaches from outside iff it runs against the outward normal.
pub open spec fn face_front(dir: V3, outward: V3) -> bool {
    v3_dot(dir, outward) < 0
}

/// The stored normal always faces against the incoming ray.
pub open spec fn face_normal(dir: V3, outward: V3) -> V3 {
    if face_front(dir, outward) {
        outward
    } else {
        v3_neg(outward)
    }
}

#[derive(Clone, Copy, Debug)]
pub struct HitRecord {
    pub p: Point3,
    pub normal: Vec3,
    pub t: Fx,
    pub front_face: bool,
    pub mat: Material,
}

impl View for HitRecord {
    type V = HitV;

    open spec fn view(&self) -> HitV {
        HitV {
            p: self.p@,
            normal: self.normal@,
            t: self.t@,
            front_face: self.front_face,
            mat: self.mat@,
        }
    }
}

impl HitRecord {
    pub fn default() -> (r: HitRecord)
        ensures
            r@ == (HitV {
                p: v3(0, 0, 0),
                normal: v3(0, 0, 0),
                t: 0,
                front_face: false,
                mat: MatV::Lambertian { albedo: v3(0, 0, 0) },
            }),
    {
        HitRecord {
            p: Point3::default(),
            normal: Vec3::default(),
            t: Fx::zero(),
            front_face: false,
            mat: Material::Lambertian(Lambertian::new(Color::default())),
        }
    }

    /// Store the outward normal oriented against the incoming ray and
    /// remember which side was struck.
    pub fn set_face_normal(&mut self, r: &Ray, outward_normal: &Vec3)
        ensures
            final(self).front_face == face_front(r@.dir, outward_normal@),
            final(self).normal@ == face_normal(r@.dir, outward_normal@),
            final(self).p == old(self).p,
            final(self).t == old(self).t,
            final(self).mat == old(self).mat,
    {
        self.front_face = dot(r.direction(), outward_normal).lt(Fx::zero());
        self.normal = if self.front_face {
            *outward_normal
        } else {
            outward_normal.neg()
        };
    }
}

} // verus!
