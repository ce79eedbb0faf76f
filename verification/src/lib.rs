//! A small offline path tracer whose geometry and color arithmetic is
//! fixed-point: every quantity is an `i64` count of 1/65536 units, so the
//! whole rendering pipeline has exact, machine-checked contracts.

pub mod camera;
pub mod color;
pub mod fixed;
pub mod hittable;
pub mod hittable_list;
pub mod interval;
pub mod material;
pub mod ray;
pub mod rt_weekend;
pub mod sphere;
pub mod vec3;
