//! A path-tracing renderer over saturating fixed-point arithmetic.
//!
//! Scene geometry, materials, textures and the radiance integrator are
//! verified; randomness enters only through one small wrapper around `rand`.

pub mod aabb;
pub mod bvh;
pub mod camera;
pub mod fixed;
pub mod hittable;
pub mod material;
pub mod nearest;
pub mod perlin;
pub mod ray;
pub mod render;
pub mod rng;
pub mod texture;
pub mod trig;
pub mod vec3;

pub use aabb::Aabb;
pub use camera::Camera;
pub use fixed::Fx;
pub use ray::Ray;
pub use vec3::{Color, Vec3};
