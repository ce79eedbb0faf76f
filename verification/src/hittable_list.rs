//! The scene aggregate: an ordered collection of spheres answering the
//! same intersection query as a single primitive.  Its contract states
//! that the reported hit is the globally nearest one.

use vstd::prelude::*;
use crate::ray::Ray;
use crate::interval::Interval;
use crate::hittable::HitRecord;
use crate::sphere::{Sphere, SphereV, sphere_hit, lemma_sphere_hit_shrink, lemma_sphere_hit_in_window};

verus! {

/// `h` is the globally nearest hit of the scene inside the window: it is
/// some member's accepted hit, and no member's accepted hit is nearer.
pub open spec fn scene_nearest_hit(
    w: Seq<SphereV>,
    r: crate::ray::RayV,
    tmin: int,
    tmax: int,
    h: crate::hittable::HitV,
) -> bool {
    &&& exists|i: int| 0 <= i < w.len() && sphere_hit(w[i], r, tmin, tmax) == Some(h)
    &&& forall|i: int|
        0 <= i < w.len() ==> match #[trigger] sphere_hit(w[i], r, tmin, tmax) {
            Some(g) => h.t <= g.t,
            None => true,
        }
}

pub struct HittableList {
    pub objects: Vec<Sphere>,
}

impl View for HittableList {
    type V = Seq<SphereV>;

    open spec fn view(&self) -> Seq<SphereV> {
        self.objects@.map_values(|s: Sphere| s@)
    }
}

impl HittableList {
    pub fn default() -> (r: HittableList)
        ensures
            r@ == Seq::<SphereV>::empty(),
    {
        let r = HittableList { objects: Vec::new() };
        proof {
            assert(r@ =~= Seq::<SphereV>::empty());
        }
        r
    }

    pub fn with_object(object: Sphere) -> (r: HittableList)
        ensures
            r@ =~= Seq::<SphereV>::empty().push(object@),
    {
        let mut list = Self::default();
        list.add(object);
        list
    }

    pub fn with_objects(objects: Vec<Sphere>) -> (r: HittableList)
        ensures
            r@ == objects@.map_values(|s: Sphere| s@),
    {
        HittableList { objects }
    }

    pub fn clear(&mut self)
        ensures
            final(self)@ =~= Seq::<SphereV>::empty(),
    {
        self.objects.clear();
    }

    pub fn add(&mut self, object: Sphere)
        ensures
            final(self)@ =~= old(self)@.push(object@),
    {
        self.objects.push(object);
    }

    /// Test the ray against every member primitive.  Returns true iff any
    /// member intersects inside the window; the record then carries the
    /// hit whose distance is the minimum over all members (the globally
    /// nearest hit), and is untouched otherwise.
    #[verifier::rlimit(60)]
    pub fn hit(&self, r: &Ray, ray_t: Interval, rec: &mut HitRecord) -> (b: bool)
        ensures
            b == (exists|i: int|
                0 <= i < self@.len() && sphere_hit(self@[i], r@, ray_t.min@, ray_t.max@) is Some),
            b ==> scene_nearest_hit(self@, r@, ray_t.min@, ray_t.max@, final(rec)@),
            forall|i: int|
                0 <= i < self@.len() ==> match #[trigger] sphere_hit(self@[i], r@, ray_t.min@, ray_t.max@) {
                    Some(h) => final(rec)@.t <= h.t,
                    None => true,
                },
            !b ==> *final(rec) == *old(rec),
    {
        let mut temp_rec = HitRecord::default();
        let mut hit_anything = false;
        let mut closest_so_far = ray_t.max;
        let mut k: usize = 0;

        while k < self.objects.len()
            invariant
                0 <= k <= self.objects.len(),
                self@.len() == self.objects@.len(),
                closest_so_far@ <= ray_t.max@,
                !hit_anything ==> {
                    &&& closest_so_far == ray_t.max
                    &&& *rec == *old(rec)
                    &&& forall|i: int|
                        0 <= i < k ==> sphere_hit(self@[i], r@, ray_t.min@, ray_t.max@) is None
                },
                hit_anything ==> {
                    &&& closest_so_far@ == rec@.t
                    &&& exists|i: int|
                        0 <= i < k && sphere_hit(self@[i], r@, ray_t.min@, ray_t.max@)
                            == Some(rec@)
                    &&& forall|i: int|
                        0 <= i < k ==> match #[trigger] sphere_hit(self@[i], r@, ray_t.min@, ray_t.max@) {
                            Some(h) => rec@.t <= h.t,
                            None => true,
                        }
                },
            decreases self.objects.len() - k,
        {
            let object = &self.objects[k];
            proof {
                assert(self@[k as int] == object@);
                lemma_sphere_hit_shrink(object@, r@, ray_t.min@, closest_so_far@, ray_t.max@);
                lemma_sphere_hit_in_window(object@, r@, ray_t.min@, ray_t.max@);
            }
            if object.hit(r, Interval::new(ray_t.min, closest_so_far), &mut temp_rec) {
                hit_anything = true;
                closest_so_far = temp_rec.t;
                *rec = temp_rec;
            }
            k = k + 1;
        }

        hit_anything
    }
}

} // verus!
