//! A Monte Carlo path tracer over decimal fixed-point arithmetic.
pub mod aabb;
pub mod bvh;
pub mod camera;
pub mod hittable;
pub mod image;
pub mod laws;
pub mod material;
pub mod ray;
pub mod reflection;
pub mod render;
pub mod sampling;
pub mod scalar;
pub mod texture;
pub mod vec3;
pub mod world;

pub use crate::scalar::Scalar;
pub use crate::vec3::{Color, Point3, Vec3, VecType};
