//! The camera: derives its render state from the view configuration, then
//! generates sampled rays per pixel and integrates color recursively.

use vstd::prelude::*;
use vstd::arithmetic::div_mod::lemma_fundamental_div_mod_converse;
use crate::fixed::{
    Fx, FX_ONE, FX_HALF, FX_MAX, fx_add, fx_sub, fx_mul, fx_div, fx_from_int, tdiv,
};
use crate::vec3::{
    Vec3, Point3, V3, v3, v3_add, v3_sub, v3_neg, v3_mulv, v3_scale, v3_div_s, v3_unit,
    v3_cross, v3_len_sq, unit_vector, cross, random_in_unit_disk,
};
use crate::ray::{Ray, RayV};
use crate::interval::Interval;
use crate::hittable::{HitRecord, HitV};
use crate::hittable_list::{HittableList, scene_nearest_hit};
use crate::sphere::{sphere_hit, SphereV};
use crate::material::scatter_post;
use crate::color::Color;
use crate::rt_weekend::{degrees_to_radians, d2r, tan_half, tan_half_fx, random_fx};

verus! {

/// Lower end of the intersection window, just above 0.001, suppressing
/// self-intersection at the origin of scattered rays.
pub const HIT_TMIN: i64 = 66;

/// Sky gradient endpoint, channel green: 0.7 truncated to the scale.
pub const SKY_G: i64 = 45875;

/// Mathematical view of the camera: the configuration fields and the
/// render state derived from them.
pub ghost struct CameraV {
    pub aspect_ratio: int,
    pub image_width: int,
    pub samples_per_pixel: int,
    pub max_depth: int,
    pub vfov: int,
    pub lookfrom: V3,
    pub lookat: V3,
    pub vup: V3,
    pub defocus_angle: int,
    pub focus_dist: int,
    pub image_height: int,
    pub center: V3,
    pub pixel00_loc: V3,
    pub pixel_delta_u: V3,
    pub pixel_delta_v: V3,
    pub pixel_samples_scale: int,
    pub u: V3,
    pub v: V3,
    pub w: V3,
    pub defocus_disk_u: V3,
    pub defocus_disk_v: V3,
}

/// The derived render state, computed from the configuration alone:
/// image height (clamped to at least one row), orthonormal basis, viewport
/// deltas, the location of the first pixel center, and the defocus disk.
pub open spec fn derive_camera(c: CameraV) -> CameraV {
    let ih0 = tdiv(fx_div(fx_from_int(c.image_width), c.aspect_ratio), FX_ONE as int);
    let ih = if ih0 < 1 {
        1
    } else if ih0 > 0x7fffffff {
        0x7fffffff
    } else {
        ih0
    };
    let scale = fx_div(FX_ONE as int, fx_from_int(c.samples_per_pixel));
    let center = c.lookfrom;
    let theta = d2r(fx_from_int(c.vfov));
    let hh = tan_half_fx(theta);
    let viewport_height = fx_mul(fx_mul(fx_from_int(2), hh), c.focus_dist);
    let viewport_width = fx_mul(viewport_height, fx_div(fx_from_int(c.image_width), fx_from_int(ih)));
    let wb = v3_unit(v3_sub(c.lookfrom, c.lookat));
    let ub = v3_unit(v3_cross(c.vup, wb));
    let vb = v3_cross(wb, ub);
    let viewport_u = v3_scale(ub, viewport_width);
    let viewport_v = v3_scale(v3_neg(vb), viewport_height);
    let pdu = v3_div_s(viewport_u, fx_from_int(c.image_width));
    let pdv = v3_div_s(viewport_v, fx_from_int(ih));
    let upper_left = v3_sub(
        v3_sub(v3_sub(center, v3_scale(wb, c.focus_dist)), v3_div_s(viewport_u, fx_from_int(2))),
        v3_div_s(viewport_v, fx_from_int(2)),
    );
    let pixel00 = v3_add(upper_left, v3_scale(v3_add(pdu, pdv), FX_HALF as int));
    let defocus_radius = fx_mul(c.focus_dist, tan_half_fx(d2r(c.defocus_angle)));
    CameraV {
        image_height: ih,
        pixel_samples_scale: scale,
        center,
        pixel00_loc: pixel00,
        pixel_delta_u: pdu,
        pixel_delta_v: pdv,
        u: ub,
        v: vb,
        w: wb,
        defocus_disk_u: v3_scale(ub, defocus_radius),
        defocus_disk_v: v3_scale(vb, defocus_radius),
        ..c
    }
}

/// The continuous viewport point for pixel (i, j) jittered by (ox, oy).
pub open spec fn pixel_sample_at(c: CameraV, i: int, j: int, ox: int, oy: int) -> V3 {
    v3_add(
        v3_add(c.pixel00_loc, v3_scale(c.pixel_delta_u, fx_add(fx_from_int(i), ox))),
        v3_scale(c.pixel_delta_v, fx_add(fx_from_int(j), oy)),
    )
}

/// A point of the defocus disk mapped into the scene.
pub open spec fn defocus_point(c: CameraV, px: int, py: int) -> V3 {
    v3_add(v3_add(c.center, v3_scale(c.defocus_disk_u, px)), v3_scale(c.defocus_disk_v, py))
}

/// A camera ray of the shape `get_ray` produces for pixel (i, j): its
/// origin is the camera center — or a defocus-disk point when defocus is
/// on; its time lies in [0, 1); and its direction runs from the origin to
/// the jittered viewport point of the pixel.
pub open spec fn admissible_camera_ray(c: CameraV, i: int, j: int, r: RayV) -> bool {
    &&& if c.defocus_angle <= 0 {
        r.orig == c.center
    } else {
        exists|p: V3| p.z == 0 && v3_len_sq(p) < FX_ONE && r.orig == defocus_point(c, p.x, p.y)
    }
    &&& 0 <= r.tm < FX_ONE
    &&& exists|ox: int, oy: int|
        -(FX_HALF as int) <= ox < FX_HALF && -(FX_HALF as int) <= oy < FX_HALF && r.dir
            == v3_sub(#[trigger] pixel_sample_at(c, i, j, ox, oy), r.orig)
}

/// No member of the scene intersects the ray inside the standard window.
pub open spec fn misses_scene(w: Seq<crate::sphere::SphereV>, r: RayV) -> bool {
    forall|i: int|
        0 <= i < w.len() ==> #[trigger] sphere_hit(w[i], r, HIT_TMIN as int, FX_MAX as int)
            is None
}

/// The vertical background gradient for a ray that hits nothing:
/// with a = (unit(dir).y + 1) / 2, blend white toward the sky color.
pub open spec fn background_color(r: RayV) -> V3 {
    let a = fx_mul(FX_HALF as int, fx_add(v3_unit(r.dir).y, FX_ONE as int));
    v3_add(
        v3_scale(v3(FX_ONE as int, FX_ONE as int, FX_ONE as int), fx_sub(FX_ONE as int, a)),
        v3_scale(v3(FX_HALF as int, SKY_G as int, FX_ONE as int), a),
    )
}

/// What the recursive integrator may return for a ray at a given depth:
/// black once the depth budget is exhausted; exactly the background
/// gradient where nothing is hit; and on a hit, a scatter outcome of the
/// struck material — the globally nearest hit — composed with an
/// admissible color of the scattered ray at one less depth, or black
/// where the material absorbed the ray.
pub open spec fn admissible_ray_color(r: RayV, depth: int, w: Seq<SphereV>, c: V3) -> bool
    decreases depth,
{
    if depth <= 0 {
        c == v3(0, 0, 0)
    } else if misses_scene(w, r) {
        c == background_color(r)
    } else {
        exists|h: HitV, att: V3, sc: RayV, sb: bool|
            {
                &&& scene_nearest_hit(w, r, HIT_TMIN as int, FX_MAX as int, h)
                &&& #[trigger] scatter_post(h.mat, r, h, att, sc, sb)
                &&& if sb {
                    exists|rc: V3|
                        admissible_ray_color(sc, depth - 1, w, rc) && c == #[trigger] v3_mulv(
                            att,
                            rc,
                        )
                } else {
                    c == v3(0, 0, 0)
                }
            }
    }
}

/// One unfolding step of the integrator relation: a scatter outcome at the
/// nearest hit, composed with an admissible recursive color (or black when
/// absorbed), is an admissible color for the incoming ray.
proof fn lemma_admissible_scatter_step(
    r: RayV,
    depth: int,
    w: Seq<SphereV>,
    h: HitV,
    att: V3,
    sc: RayV,
    sb: bool,
    rc: V3,
    c: V3,
)
    requires
        depth > 0,
        scene_nearest_hit(w, r, HIT_TMIN as int, FX_MAX as int, h),
        scatter_post(h.mat, r, h, att, sc, sb),
        sb ==> admissible_ray_color(sc, depth - 1, w, rc) && c == v3_mulv(att, rc),
        !sb ==> c == v3(0, 0, 0),
    ensures
        admissible_ray_color(r, depth, w, c),
{
    let i = choose|i: int|
        0 <= i < w.len() && sphere_hit(w[i], r, HIT_TMIN as int, FX_MAX as int) == Some(h);
    assert(sphere_hit(w[i], r, HIT_TMIN as int, FX_MAX as int) is Some);
    assert(!misses_scene(w, r));
    if sb {
        assert(exists|rc2: V3|
            admissible_ray_color(sc, depth - 1, w, rc2) && c == #[trigger] v3_mulv(att, rc2));
    }
    assert(exists|h2: HitV, att2: V3, sc2: RayV, sb2: bool|
        {
            &&& scene_nearest_hit(w, r, HIT_TMIN as int, FX_MAX as int, h2)
            &&& #[trigger] scatter_post(h2.mat, r, h2, att2, sc2, sb2)
            &&& if sb2 {
                exists|rc2: V3|
                    admissible_ray_color(sc2, depth - 1, w, rc2) && c == #[trigger] v3_mulv(
                        att2,
                        rc2,
                    )
            } else {
                c == v3(0, 0, 0)
            }
        });
}

/// The componentwise sum of a sequence of sample colors, in order.
pub open spec fn sum_colors(samples: Seq<V3>) -> V3
    decreases samples.len(),
{
    if samples.len() == 0 {
        v3(0, 0, 0)
    } else {
        v3_add(sum_colors(samples.drop_last()), samples.last())
    }
}

/// One admissible sample for pixel (i, j): the integrator's color of some
/// camera ray of the stated shape through that pixel.
pub open spec fn admissible_sample(c: CameraV, w: Seq<SphereV>, i: int, j: int, s: V3) -> bool {
    exists|r: RayV|
        #[trigger] admissible_camera_ray(c, i, j, r) && admissible_ray_color(r, c.max_depth, w, s)
}

/// An admissible pixel value for pixel (i, j): the sum of one admissible
/// sample per configured iteration, scaled by 1 / samples-per-pixel.
pub open spec fn admissible_pixel(c: CameraV, w: Seq<SphereV>, i: int, j: int, out: V3) -> bool {
    exists|samples: Seq<V3>|
        {
            &&& samples.len() == (if c.samples_per_pixel >= 0 {
                c.samples_per_pixel
            } else {
                0
            })
            &&& forall|k: int|
                0 <= k < samples.len() ==> admissible_sample(c, w, i, j, #[trigger] samples[k])
            &&& out == v3_scale(#[trigger] sum_colors(samples), c.pixel_samples_scale)
        }
}

pub struct Camera {
    pub aspect_ratio: Fx,
    pub image_width: i32,
    pub samples_per_pixel: i32,
    pub max_depth: i32,
    pub vfov: i32,
    pub lookfrom: Point3,
    pub lookat: Point3,
    pub vup: Vec3,
    pub defocus_angle: Fx,
    pub focus_dist: Fx,
    image_height: i32,
    center: Point3,
    pixel00_loc: Point3,
    pixel_delta_u: Vec3,
    pixel_delta_v: Vec3,
    pixel_samples_scale: Fx,
    u: Vec3,
    v: Vec3,
    w: Vec3,
    defocus_disk_u: Vec3,
    defocus_disk_v: Vec3,
}

impl View for Camera {
    type V = CameraV;

    closed spec fn view(&self) -> CameraV {
        CameraV {
            aspect_ratio: self.aspect_ratio@,
            image_width: self.image_width as int,
            samples_per_pixel: self.samples_per_pixel as int,
            max_depth: self.max_depth as int,
            vfov: self.vfov as int,
            lookfrom: self.lookfrom@,
            lookat: self.lookat@,
            vup: self.vup@,
            defocus_angle: self.defocus_angle@,
            focus_dist: self.focus_dist@,
            image_height: self.image_height as int,
            center: self.center@,
            pixel00_loc: self.pixel00_loc@,
            pixel_delta_u: self.pixel_delta_u@,
            pixel_delta_v: self.pixel_delta_v@,
            pixel_samples_scale: self.pixel_samples_scale@,
            u: self.u@,
            v: self.v@,
            w: self.w@,
            defocus_disk_u: self.defocus_disk_u@,
            defocus_disk_v: self.defocus_disk_v@,
        }
    }
}

impl Camera {
    /// The documented default configuration: square aspect, width 100,
    /// 10 samples, depth 10, a 90 degree field of view looking down -z.
    pub fn default() -> (r: Camera)
        ensures
            r@ == (CameraV {
                aspect_ratio: FX_ONE as int,
                image_width: 100,
                samples_per_pixel: 10,
                max_depth: 10,
                vfov: 90,
                lookfrom: v3(0, 0, 0),
                lookat: v3(0, 0, -(FX_ONE as int)),
                vup: v3(0, FX_ONE as int, 0),
                defocus_angle: 0,
                focus_dist: 10 * FX_ONE as int,
                image_height: 0,
                center: v3(0, 0, 0),
                pixel00_loc: v3(0, 0, 0),
                pixel_delta_u: v3(0, 0, 0),
                pixel_delta_v: v3(0, 0, 0),
                pixel_samples_scale: FX_ONE as int,
                u: v3(0, 0, 0),
                v: v3(0, 0, 0),
                w: v3(0, 0, 0),
                defocus_disk_u: v3(0, 0, 0),
                defocus_disk_v: v3(0, 0, 0),
            }),
    {
        Camera {
            aspect_ratio: Fx::one(),
            image_width: 100,
            samples_per_pixel: 10,
            max_depth: 10,
            vfov: 90,
            lookfrom: Point3::default(),
            lookat: Point3::new(Fx::zero(), Fx::zero(), Fx::from_int(-1)),
            vup: Vec3::new(Fx::zero(), Fx::one(), Fx::zero()),
            defocus_angle: Fx::zero(),
            focus_dist: Fx::from_int(10),
            image_height: 0,
            center: Point3::default(),
            pixel00_loc: Point3::default(),
            pixel_delta_u: Vec3::default(),
            pixel_delta_v: Vec3::default(),
            pixel_samples_scale: Fx::one(),
            u: Vec3::default(),
            v: Vec3::default(),
            w: Vec3::default(),
            defocus_disk_u: Vec3::default(),
            defocus_disk_v: Vec3::default(),
        }
    }

    /// Compute the derived render state from the configuration.
    fn initialize(&mut self)
        ensures
            final(self)@ == derive_camera(old(self)@),
    {
        let ih64 = Fx::from_int(self.image_width as i64).div(self.aspect_ratio).to_int_trunc();
        self.image_height = if ih64 < 1 {
            1
        } else if ih64 > 0x7fffffff {
            0x7fffffff
        } else {
            ih64 as i32
        };

        self.pixel_samples_scale = Fx::one().div(Fx::from_int(self.samples_per_pixel as i64));

        self.center = self.lookfrom;

        // viewport dimensions
        let theta = degrees_to_radians(Fx::from_int(self.vfov as i64));
        let hh = tan_half(theta);
        let viewport_height = Fx::from_int(2).mul(hh).mul(self.focus_dist);
        let viewport_width = viewport_height.mul(
            Fx::from_int(self.image_width as i64).div(Fx::from_int(self.image_height as i64)),
        );

        self.w = unit_vector(&self.lookfrom.sub(self.lookat));
        self.u = unit_vector(&cross(&self.vup, &self.w));
        self.v = cross(&self.w, &self.u);

        // vectors across the horizontal and down the vertical viewport edge
        let viewport_u = self.u.scale(viewport_width);
        let viewport_v = self.v.neg().scale(viewport_height);

        // horizontal and vertical delta vectors from pixel to pixel
        self.pixel_delta_u = viewport_u.div(Fx::from_int(self.image_width as i64));
        self.pixel_delta_v = viewport_v.div(Fx::from_int(self.image_height as i64));

        // location of the upper left pixel
        let viewport_upper_left = self.center.sub(self.w.scale(self.focus_dist)).sub(
            viewport_u.div(Fx::from_int(2)),
        ).sub(viewport_v.div(Fx::from_int(2)));
        self.pixel00_loc = viewport_upper_left.add(
            self.pixel_delta_u.add(self.pixel_delta_v).scale(Fx { raw: FX_HALF }),
        );

        let defocus_radius = self.focus_dist.mul(tan_half(degrees_to_radians(self.defocus_angle)));
        self.defocus_disk_u = self.u.scale(defocus_radius);
        self.defocus_disk_v = self.v.scale(defocus_radius);
    }

    /// A jitter offset inside the half-open square [-1/2, 1/2)^2.
    fn sample_square(&self) -> (r: Vec3)
        ensures
            -(FX_HALF as int) <= r@.x < FX_HALF,
            -(FX_HALF as int) <= r@.y < FX_HALF,
            r@.z == 0,
    {
        Vec3::new(
            random_fx().sub(Fx { raw: FX_HALF }),
            random_fx().sub(Fx { raw: FX_HALF }),
            Fx::zero(),
        )
    }

    /// A ray origin on the defocus disk.
    fn defocus_disk_sample(&self) -> (r: Point3)
        ensures
            exists|p: V3|
                p.z == 0 && v3_len_sq(p) < FX_ONE && r@ == defocus_point(self@, p.x, p.y),
    {
        let p = random_in_unit_disk();
        let r = self.center.add(self.defocus_disk_u.scale(p.x())).add(
            self.defocus_disk_v.scale(p.y()),
        );
        proof {
            assert(p@.z == 0 && v3_len_sq(p@) < FX_ONE && r@ == defocus_point(self@, p@.x, p@.y));
        }
        r
    }

    /// Construct a camera ray toward a randomly sampled point around pixel
    /// (i, j), stamped with a random time in [0, 1).  With no defocus the
    /// origin is exactly the camera center.
    pub fn get_ray(&self, i: i32, j: i32) -> (r: Ray)
        ensures
            self@.defocus_angle <= 0 ==> r@.orig == self@.center,
            admissible_camera_ray(self@, i as int, j as int, r@),
    {
        let offset = self.sample_square();
        let pixel_sample = self.pixel00_loc.add(
            self.pixel_delta_u.scale(Fx::from_int(i as i64).add(offset.x())),
        ).add(self.pixel_delta_v.scale(Fx::from_int(j as i64).add(offset.y())));

        let ray_origin = if self.defocus_angle.le(Fx::zero()) {
            self.center
        } else {
            self.defocus_disk_sample()
        };
        let ray_direction = pixel_sample.sub(ray_origin);
        let ray_time = random_fx();

        let r = Ray::timed(ray_origin, ray_direction, ray_time);
        proof {
            assert(r@.dir == v3_sub(
                pixel_sample_at(self@, i as int, j as int, offset@.x, offset@.y),
                r@.orig,
            ));
        }
        r
    }

    /// The recursive integrator.  Exhausted depth yields black; a ray that
    /// misses every primitive yields the background gradient exactly; on a
    /// hit the struck material decides — the result is its attenuation
    /// composed with the color of the scattered ray at one less depth, or
    /// black when the ray was absorbed.
    #[verifier::rlimit(100)]
    pub fn ray_color(&self, r: &Ray, depth: i32, world: &HittableList) -> (c: Color)
        ensures
            depth <= 0 ==> c@ == v3(0, 0, 0),
            depth > 0 && misses_scene(world@, r@) ==> c@ == background_color(r@),
            admissible_ray_color(r@, depth as int, world@, c@),
        decreases depth,
    {
        // recursion budget exhausted
        if depth <= 0 {
            return Color::default();
        }

        let mut rec = HitRecord::default();

        if world.hit(r, Interval::new(Fx { raw: HIT_TMIN }, Fx { raw: FX_MAX }), &mut rec) {
            let mut scattered = Ray::default();
            let mut attenuation = Color::default();

            if rec.mat.scatter(r, &rec, &mut attenuation, &mut scattered) {
                let rc = self.ray_color(&scattered, depth - 1, world);
                let out = attenuation.mul(rc);
                proof {
                    lemma_admissible_scatter_step(
                        r@,
                        depth as int,
                        world@,
                        rec@,
                        attenuation@,
                        scattered@,
                        true,
                        rc@,
                        out@,
                    );
                }
                return out;
            }

            // absorbed
            let out = Color::default();
            proof {
                lemma_admissible_scatter_step(
                    r@,
                    depth as int,
                    world@,
                    rec@,
                    attenuation@,
                    scattered@,
                    false,
                    v3(0, 0, 0),
                    out@,
                );
            }
            return out;
        }

        // no hit: blend white toward the sky color by the direction's height
        proof {
            assert(misses_scene(world@, r@));
        }
        let unit_direction = unit_vector(r.direction());
        let a = Fx { raw: FX_HALF }.mul(unit_direction.y().add(Fx::one()));
        Color::new(Fx::one(), Fx::one(), Fx::one()).scale(Fx::one().sub(a)).add(
            Color::new(Fx { raw: FX_HALF }, Fx { raw: SKY_G }, Fx::one()).scale(a),
        )
    }

    /// Render the scene: derive the render state, then for every pixel in
    /// row-major order accumulate the configured number of ray samples and
    /// average them.  Returns the pixels, top row first.
    #[verifier::rlimit(100)]
    pub fn render(&mut self, world: &HittableList) -> (pixels: Vec<Color>)
        requires
            old(self)@.image_width >= 1,
        ensures
            final(self)@ == derive_camera(old(self)@),
            pixels@.len() == derive_camera(old(self)@).image_height * old(self)@.image_width,
            forall|k: int|
                0 <= k < pixels@.len() ==> admissible_pixel(
                    derive_camera(old(self)@),
                    world@,
                    k % old(self)@.image_width,
                    k / old(self)@.image_width,
                    #[trigger] pixels@[k]@,
                ),
    {
        self.initialize();

        let image_width = self.image_width;
        let image_height = self.image_height;

        let mut pixels: Vec<Color> = Vec::new();

        let mut j: i32 = 0;
        while j < image_height
            invariant
                self@ == derive_camera(old(self)@),
                image_width as int == self@.image_width,
                image_height as int == self@.image_height,
                image_width >= 1,
                image_height >= 1,
                0 <= j <= image_height,
                pixels@.len() == j * image_width,
                forall|k: int|
                    0 <= k < pixels@.len() ==> admissible_pixel(
                        self@,
                        world@,
                        k % (image_width as int),
                        k / (image_width as int),
                        #[trigger] pixels@[k]@,
                    ),
            decreases image_height - j,
        {
            let mut i: i32 = 0;
            while i < image_width
                invariant
                    self@ == derive_camera(old(self)@),
                    image_width as int == self@.image_width,
                    image_height as int == self@.image_height,
                    image_width >= 1,
                    image_height >= 1,
                    0 <= j < image_height,
                    0 <= i <= image_width,
                    pixels@.len() == j * image_width + i,
                    forall|k: int|
                        0 <= k < pixels@.len() ==> admissible_pixel(
                            self@,
                            world@,
                            k % (image_width as int),
                            k / (image_width as int),
                            #[trigger] pixels@[k]@,
                        ),
                decreases image_width - i,
            {
                let mut pixel_color = Color::default();
                let ghost mut samples: Seq<V3> = Seq::empty();

                let mut s: i32 = 0;
                while s < self.samples_per_pixel
                    invariant
                        self@ == derive_camera(old(self)@),
                        0 <= j < image_height,
                        0 <= i < image_width,
                        0 <= s,
                        s as int <= (if self@.samples_per_pixel >= 0 {
                            self@.samples_per_pixel
                        } else {
                            0
                        }),
                        samples.len() == s as int,
                        forall|k: int|
                            0 <= k < samples.len() ==> admissible_sample(
                                self@,
                                world@,
                                i as int,
                                j as int,
                                #[trigger] samples[k],
                            ),
                        pixel_color@ == sum_colors(samples),
                    decreases self.samples_per_pixel - s,
                {
                    let ray = self.get_ray(i, j);
                    let sample = self.ray_color(&ray, self.max_depth, world);
                    pixel_color = pixel_color.add(sample);
                    proof {
                        assert(admissible_camera_ray(self@, i as int, j as int, ray@)
                            && admissible_ray_color(ray@, self@.max_depth, world@, sample@));
                        assert(samples.push(sample@).drop_last() =~= samples);
                        samples = samples.push(sample@);
                    }
                    s = s + 1;
                }

                let out = pixel_color.scale(self.pixel_samples_scale);
                proof {
                    assert(samples.len() == (if self@.samples_per_pixel >= 0 {
                        self@.samples_per_pixel
                    } else {
                        0
                    }));
                    assert(admissible_pixel(self@, world@, i as int, j as int, out@));
                    let k0 = pixels@.len() as int;
                    assert((image_width as int) * (j as int) == (j as int) * (image_width as int))
                        by (nonlinear_arith);
                    lemma_fundamental_div_mod_converse(
                        k0,
                        image_width as int,
                        j as int,
                        i as int,
                    );
                }
                pixels.push(out);
                i = i + 1;
            }
            proof {
                assert((j + 1) * image_width == j * image_width + image_width) by (nonlinear_arith);
            }
            j = j + 1;
        }

        pixels
    }
}

} // verus!
