//! A verified ray-tracing core.
//!
//! Scene geometry, materials and the recursive radiance estimator are
//! implemented over fixed-point scalars (see [`fixed`]), so every arithmetic
//! step has an exact mathematical meaning that the contracts can state.

pub mod camera;

pub use camera::Camera;
pub use color::Color;
pub use hitrecord::HitRecord;
pub use hittables::{HittableList, Sphere};
pub use materials::{Dielectric, Lambertian, Material, Metal};
pub use ray::Ray;
pub use vec3::{Point3, Vec3};

pub mod color;
pub mod fixed;
pub mod hitrecord;
pub mod hittables;
pub mod materials;
pub mod ray;
pub mod render;
pub mod utils;
pub mod vec3;
