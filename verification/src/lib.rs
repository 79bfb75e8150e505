//! A recursive ray tracer: camera rays are intersected with a scene of
//! spheres, scattered off Lambertian, metal and dielectric materials, and
//! integrated into a pixel color up to a bounce limit.
//!
//! All quantities are fixed-point reals: an `i64` counts units of
//! `1 / SCALE`, so `SCALE` itself is the number one. Every arithmetic
//! operation rounds toward zero, and every function's contract states its
//! result exactly over that arithmetic.

pub mod camera;
pub mod color;
pub mod fixed;
pub mod hit;
pub mod material;
pub mod ray;
pub mod rng;
pub mod scene;
pub mod sphere;
pub mod vec3;

pub use camera::Camera;
pub use fixed::clamp;
pub use fixed::SCALE;
pub use hit::{HitRecord, ScatterResult};
pub use material::{Dialectric, Lambertian, Material, Metal};
pub use ray::Ray;
pub use scene::{HitList, Hittable};
pub use sphere::Sphere;
pub use vec3::{cross, dot, reflect, refract, Vec3};
