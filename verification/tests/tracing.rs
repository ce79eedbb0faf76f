use rt_weekend::fixed::{Fx, FX_ONE, FX_HALF, FX_MAX};
use rt_weekend::vec3::{Vec3, Point3};
use rt_weekend::ray::Ray;
use rt_weekend::interval::Interval;
use rt_weekend::hittable::HitRecord;
use rt_weekend::hittable_list::HittableList;
use rt_weekend::sphere::Sphere;
use rt_weekend::material::{Material, Lambertian, Metal, Dielectric};
use rt_weekend::camera::{Camera, HIT_TMIN, SKY_G};
use rt_weekend::color::Color;

fn fx(i: i64) -> Fx {
    Fx::from_int(i)
}

fn gray() -> Material {
    Material::Lambertian(Lambertian::new(Color::new(
        Fx::from_milli(500),
        Fx::from_milli(500),
        Fx::from_milli(500),
    )))
}

fn window() -> Interval {
    Interval::new(Fx { raw: HIT_TMIN }, Fx { raw: FX_MAX })
}

// A ray aimed at a sphere's center from distance 3 with radius 1 hits at
// exactly t = 2, and the normal there is the reversed ray direction.
#[test]
fn aimed_ray_hits_at_center_distance_minus_radius() {
    let s = Sphere::stationary(Point3::new(fx(0), fx(0), fx(-3)), fx(1), gray());
    let r = Ray::new(Point3::default(), Vec3::new(fx(0), fx(0), fx(-1)));
    let mut rec = HitRecord::default();
    assert!(s.hit(&r, window(), &mut rec));
    assert_eq!(rec.t, fx(2));
    assert!(rec.front_face);
    assert_eq!(rec.normal, Vec3::new(fx(0), fx(0), fx(1)));
    assert_eq!(rec.p, Point3::new(fx(0), fx(0), fx(-2)));
}

// A negative construction radius is clamped to zero: the sphere collapses
// to its center point, hit at exactly the center distance.
#[test]
fn negative_radius_clamps_to_zero() {
    let s = Sphere::stationary(Point3::new(fx(0), fx(0), fx(-3)), fx(-1), gray());
    let r = Ray::new(Point3::default(), Vec3::new(fx(0), fx(0), fx(-1)));
    let mut rec = HitRecord::default();
    assert!(s.hit(&r, window(), &mut rec));
    assert_eq!(rec.t, fx(3));
}

// A moving sphere interpolates its center with the ray's time: from
// (0,0,-3) at time 0 toward (0,0,-5) at time 1, a ray stamped 1/2 sees
// the center at (0,0,-4).
#[test]
fn moving_sphere_interpolates_center_by_ray_time() {
    let s = Sphere::moving(
        Point3::new(fx(0), fx(0), fx(-3)),
        Point3::new(fx(0), fx(0), fx(-5)),
        fx(1),
        gray(),
    );
    let d = Vec3::new(fx(0), fx(0), fx(-1));

    let mut rec = HitRecord::default();
    let at_start = Ray::timed(Point3::default(), d, Fx { raw: 0 });
    assert!(s.hit(&at_start, window(), &mut rec));
    assert_eq!(rec.t, fx(2));

    let halfway = Ray::timed(Point3::default(), d, Fx { raw: FX_HALF });
    assert!(s.hit(&halfway, window(), &mut rec));
    assert_eq!(rec.t, fx(3));
}

// The documented camera defaults.
#[test]
fn camera_default_configuration() {
    let cam = Camera::default();
    assert_eq!(cam.aspect_ratio, fx(1));
    assert_eq!(cam.image_width, 100);
    assert_eq!(cam.samples_per_pixel, 10);
    assert_eq!(cam.max_depth, 10);
    assert_eq!(cam.vfov, 90);
    assert_eq!(cam.lookfrom, Point3::default());
    assert_eq!(cam.lookat, Point3::new(fx(0), fx(0), fx(-1)));
    assert_eq!(cam.vup, Vec3::new(fx(0), fx(1), fx(0)));
    assert_eq!(cam.defocus_angle, fx(0));
    assert_eq!(cam.focus_dist, fx(10));
}

// Sphere intersection is translation-consistent: a sphere at C against a
// ray equals the sphere at the origin against the ray translated by -C.
#[test]
fn sphere_hit_is_translation_consistent() {
    let c = Point3::new(fx(1), fx(2), fx(-3));
    let s1 = Sphere::stationary(c, fx(1), gray());
    let o = Point3::new(fx(1), fx(2), fx(4));
    let d = Vec3::new(fx(0), fx(0), fx(-1));
    let r1 = Ray::new(o, d);

    let s2 = Sphere::stationary(Point3::default(), fx(1), gray());
    let r2 = Ray::new(o.sub(c), d);

    let mut rec1 = HitRecord::default();
    let mut rec2 = HitRecord::default();
    assert!(s1.hit(&r1, window(), &mut rec1));
    assert!(s2.hit(&r2, window(), &mut rec2));
    assert_eq!(rec1.t, rec2.t);
    assert_eq!(rec1.front_face, rec2.front_face);
    assert_eq!(rec1.normal, rec2.normal);
    assert_eq!(rec2.p, rec1.p.sub(c));
}

// The scene aggregate reports the globally nearest hit: with two
// overlapping spheres on one ray, the returned t is the minimum of the two
// individually computed distances.
#[test]
fn scene_reports_globally_nearest_hit() {
    let far = Sphere::stationary(Point3::new(fx(0), fx(0), fx(-5)), fx(1), gray());
    let near = Sphere::stationary(Point3::new(fx(0), fx(0), fx(-4)), fx(1), gray());
    let r = Ray::new(Point3::default(), Vec3::new(fx(0), fx(0), fx(-1)));

    let mut rec_far = HitRecord::default();
    let mut rec_near = HitRecord::default();
    assert!(far.hit(&r, window(), &mut rec_far));
    assert!(near.hit(&r, window(), &mut rec_near));
    assert_eq!(rec_far.t, fx(4));
    assert_eq!(rec_near.t, fx(3));

    // far first, then near: order must not matter for the result
    let mut world = HittableList::default();
    world.add(far);
    world.add(near);
    let mut rec = HitRecord::default();
    assert!(world.hit(&r, window(), &mut rec));
    assert_eq!(rec.t, rec_near.t.min(rec_far.t));
    assert_eq!(rec.t, fx(3));
}

#[test]
fn empty_scene_misses_and_leaves_record_alone() {
    let world = HittableList::default();
    let r = Ray::new(Point3::default(), Vec3::new(fx(0), fx(0), fx(-1)));
    let mut rec = HitRecord::default();
    assert!(!world.hit(&r, window(), &mut rec));
    assert_eq!(rec.t, Fx { raw: 0 });
    assert!(rec.normal.near_zero());
}

// ray_color with depth 0 returns black regardless of the scene.
#[test]
fn ray_color_depth_zero_is_black() {
    let cam = Camera::default();
    let mut world = HittableList::default();
    world.add(Sphere::stationary(Point3::new(fx(0), fx(0), fx(-3)), fx(1), gray()));
    let r = Ray::new(Point3::default(), Vec3::new(fx(0), fx(0), fx(-1)));
    let c = cam.ray_color(&r, 0, &world);
    assert_eq!(c, Color::new(fx(0), fx(0), fx(0)));
}

// A ray that misses every primitive returns the exact background gradient
// value for its direction's y component.
#[test]
fn missed_ray_returns_exact_background() {
    let cam = Camera::default();
    let mut world = HittableList::default();
    world.add(Sphere::stationary(Point3::new(fx(0), fx(0), fx(-5)), fx(1), gray()));

    // straight up: a == 1, so the color is exactly the sky color
    let up = Ray::new(Point3::default(), Vec3::new(fx(0), fx(1), fx(0)));
    let c = cam.ray_color(&up, 8, &world);
    assert_eq!(c, Color::new(Fx { raw: FX_HALF }, Fx { raw: SKY_G }, Fx::one()));

    // straight down: a == 0, so the color is exactly white
    let down = Ray::new(Point3::default(), Vec3::new(fx(0), fx(-1), fx(0)));
    let c2 = cam.ray_color(&down, 8, &world);
    assert_eq!(c2, Color::new(fx(1), fx(1), fx(1)));
}

// Lambertian scatter never returns a near-zero direction.
#[test]
fn lambertian_scatter_direction_never_zero() {
    let albedo = Color::new(Fx::from_milli(800), Fx::from_milli(100), Fx::from_milli(100));
    let lam = Lambertian::new(albedo);
    let rec = HitRecord {
        p: Point3::new(fx(0), fx(0), fx(-2)),
        normal: Vec3::new(fx(0), fx(1), fx(0)),
        t: fx(2),
        front_face: true,
        mat: Material::Lambertian(lam),
    };
    let r_in = Ray::new(Point3::default(), Vec3::new(fx(0), fx(-1), fx(0)));
    for _ in 0..32 {
        let mut attenuation = Color::default();
        let mut scattered = Ray::default();
        let b = lam.scatter(&r_in, &rec, &mut attenuation, &mut scattered);
        assert!(b);
        assert!(!scattered.direction().near_zero());
        assert_eq!(attenuation, albedo);
        assert_eq!(*scattered.origin(), rec.p);
    }
}

// A fuzz-free metal reflects a head-on ray straight back.
#[test]
fn shiny_metal_reflects_head_on_ray() {
    let albedo = Color::new(Fx::from_milli(700), Fx::from_milli(600), Fx::from_milli(500));
    let metal = Metal::shiny(albedo);
    let rec = HitRecord {
        p: Point3::new(fx(0), fx(0), fx(-2)),
        normal: Vec3::new(fx(0), fx(0), fx(1)),
        t: fx(2),
        front_face: true,
        mat: Material::Metal(metal),
    };
    let r_in = Ray::new(Point3::default(), Vec3::new(fx(0), fx(0), fx(-1)));
    let mut attenuation = Color::default();
    let mut scattered = Ray::default();
    let b = metal.scatter(&r_in, &rec, &mut attenuation, &mut scattered);
    assert!(b);
    assert_eq!(*scattered.direction(), Vec3::new(fx(0), fx(0), fx(1)));
    assert_eq!(attenuation, albedo);
}

// A dielectric always scatters, with unit attenuation.
#[test]
fn dielectric_always_scatters_colorless() {
    let glass = Dielectric::new(Fx::from_milli(1500));
    let rec = HitRecord {
        p: Point3::new(fx(0), fx(0), fx(-2)),
        normal: Vec3::new(fx(0), fx(0), fx(1)),
        t: fx(2),
        front_face: true,
        mat: Material::Dielectric(glass),
    };
    let r_in = Ray::new(Point3::default(), Vec3::new(fx(0), fx(0), fx(-1)));
    for _ in 0..16 {
        let mut attenuation = Color::default();
        let mut scattered = Ray::default();
        let b = glass.scatter(&r_in, &rec, &mut attenuation, &mut scattered);
        assert!(b);
        assert_eq!(attenuation, Color::new(fx(1), fx(1), fx(1)));
        assert_eq!(*scattered.origin(), rec.p);
    }
}

// Past the critical angle a dielectric must reflect (total internal
// reflection), deterministically: a 45 degree ray inside glass with index
// 1.5 exceeds it, so the scattered direction is exactly the reflection.
#[test]
fn dielectric_total_internal_reflection_is_forced() {
    let glass = Dielectric::new(Fx::from_milli(1500));
    let rec = HitRecord {
        p: Point3::default(),
        normal: Vec3::new(fx(0), fx(0), fx(1)),
        t: fx(1),
        front_face: false,
        mat: Material::Dielectric(glass),
    };
    let r_in = Ray::new(Point3::default(), Vec3::new(fx(1), fx(0), fx(-1)));
    for _ in 0..8 {
        let mut attenuation = Color::default();
        let mut scattered = Ray::default();
        assert!(glass.scatter(&r_in, &rec, &mut attenuation, &mut scattered));
        assert_eq!(
            *scattered.direction(),
            Vec3::new(Fx { raw: 46341 }, Fx { raw: 0 }, Fx { raw: 46341 }),
        );
    }
}

// The material dispatcher behaves as the variant it wraps.
#[test]
fn material_dispatch_matches_variant() {
    let albedo = Color::new(Fx::from_milli(700), Fx::from_milli(600), Fx::from_milli(500));
    let mat = Material::Metal(Metal::shiny(albedo));
    let rec = HitRecord {
        p: Point3::default(),
        normal: Vec3::new(fx(0), fx(0), fx(1)),
        t: fx(1),
        front_face: true,
        mat,
    };
    let r_in = Ray::new(Point3::default(), Vec3::new(fx(0), fx(0), fx(-1)));
    let mut attenuation = Color::default();
    let mut scattered = Ray::default();
    assert!(mat.scatter(&r_in, &rec, &mut attenuation, &mut scattered));
    assert_eq!(*scattered.direction(), Vec3::new(fx(0), fx(0), fx(1)));
    assert_eq!(attenuation, albedo);
}

// With defocus angle zero, every generated ray starts exactly at the
// camera center, whatever the pixel.
#[test]
fn zero_defocus_rays_start_at_camera_center() {
    let mut cam = Camera::default();
    cam.lookfrom = Point3::new(fx(13), fx(2), fx(3));
    cam.lookat = Point3::default();
    cam.image_width = 40;
    let mut world = HittableList::default();
    world.add(Sphere::stationary(Point3::new(fx(0), fx(0), fx(-3)), fx(1), gray()));
    let _ = cam.render(&world);
    for (i, j) in [(0i32, 0i32), (17, 5), (39, 39), (20, 0)] {
        let r = cam.get_ray(i, j);
        assert_eq!(*r.origin(), cam.lookfrom);
        assert!(0 <= r.time().raw && r.time().raw < FX_ONE);
    }
}

// End-to-end: a single unit sphere at (0, 0, -1), default camera with
// aspect 16:9 and width 400.  The center-pixel ray intersects the sphere,
// and the normal-shaded value 0.5 * (normal + (1,1,1)) computed from the
// hit equals the closed-form (0.5, 0.5, 1.0) up to the sub-pixel jitter.
#[test]
fn center_pixel_ray_hits_unit_sphere_with_known_normal() {
    let mut cam = Camera::default();
    cam.aspect_ratio = fx(16).div(fx(9));
    cam.image_width = 400;
    cam.samples_per_pixel = 1;
    cam.max_depth = 1;
    let mut world = HittableList::default();
    world.add(Sphere::stationary(Point3::new(fx(0), fx(0), fx(-1)), fx(1), gray()));

    let pixels = cam.render(&world);
    assert_eq!(pixels.len(), 400 * 225);

    let r = cam.get_ray(200, 112);
    let mut rec = HitRecord::default();
    assert!(world.hit(&r, window(), &mut rec));

    let ones = Color::new(fx(1), fx(1), fx(1));
    let shaded = rec.normal.add(ones).scale(Fx { raw: FX_HALF });
    let tol = 2000;
    assert!((shaded.x().raw - FX_HALF).abs() <= tol, "x {}", shaded.x().raw);
    assert!((shaded.y().raw - FX_HALF).abs() <= tol, "y {}", shaded.y().raw);
    assert!((shaded.z().raw - FX_ONE).abs() <= tol, "z {}", shaded.z().raw);
}

// The render loop emits exactly height * width pixels in row-major order.
#[test]
fn render_emits_one_color_per_pixel() {
    let mut cam = Camera::default();
    cam.image_width = 4;
    cam.samples_per_pixel = 2;
    cam.max_depth = 3;
    let mut world = HittableList::default();
    world.add(Sphere::stationary(Point3::new(fx(0), fx(0), fx(-3)), fx(1), gray()));
    let pixels = cam.render(&world);
    assert_eq!(pixels.len(), 16);
}
