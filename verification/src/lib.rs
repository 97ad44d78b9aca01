//! A path-tracing renderer over fixed-point arithmetic.

pub mod camera;
pub mod color;
pub mod hittable;
pub mod hittable_list;
pub mod interval;
pub mod material;
pub mod ray;
pub mod refraction;
pub mod scalar;
pub mod sphere;
pub mod utils;
pub mod vec3;
