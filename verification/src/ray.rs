//! A parametric ray: origin, direction, and a time stamp in [0, 1) used
//! for motion sampling.

use vstd::prelude::*;
use crate::fixed::Fx;
use crate::vec3::{Vec3, Point3, V3, v3, v3_add, v3_scale};

verus! {

/// Mathematical view of a ray.
pub ghost struct RayV {
    pub orig: V3,
    pub dir: V3,
    pub tm: int,
}

/// The point orig + t * dir.
pub open spec fn ray_at(r: RayV, t: int) -> V3 {
    v3_add(r.orig, v3_scale(r.dir, t))
}

#[derive(Clone, Copy, Debug)]
pub struct Ray {
    orig: Point3,
    dir: Vec3,
    tm: Fx,
}

impl View for Ray {
    type V = RayV;

    closed spec fn view(&self) -> RayV {
        RayV { orig: self.orig@, dir: self.dir@, tm: self.tm@ }
    }
}

impl Ray {
    pub fn default() -> (r: Ray)
        ensures
            r@ == (RayV { orig: v3(0, 0, 0), dir: v3(0, 0, 0), tm: 0 }),
    {
        Ray { orig: Point3::default(), dir: Vec3::default(), tm: Fx::zero() }
    }

    pub fn new(origin: Point3, direction: Vec3) -> (r: Ray)
        ensures
            r@ == (RayV { orig: origin@, dir: direction@, tm: 0 }),
    {
        Ray { orig: origin, dir: direction, tm: Fx::zero() }
    }

    pub fn timed(origin: Point3, direction: Vec3, time: Fx) -> (r: Ray)
        ensures
            r@ == (RayV { orig: origin@, dir: direction@, tm: time@ }),
    {
        Ray { orig: origin, dir: direction, tm: time }
    }

    pub fn origin(&self) -> (r: &Point3)
        ensures
            r@ == self@.orig,
    {
        &self.orig
    }

    pub fn direction(&self) -> (r: &Vec3)
        ensures
            r@ == self@.dir,
    {
        &self.dir
    }

    pub fn time(&self) -> (r: Fx)
        ensures
            r@ == self@.tm,
    {
        self.tm
    }

    pub fn at(&self, t: Fx) -> (r: Point3)
        ensures
            r@ == ray_at(self@, t@),
    {
        self.orig.add(self.dir.scale(t))
    }
}

} // verus!
