//! A small path tracer over exact fixed-point arithmetic: spheres, diffuse and
//! metal materials, a pinhole camera, a depth-bounded radiance estimate and
//! the multi-sample, gamma-corrected colour of each pixel.
pub mod fixed;
pub mod vec3;
pub mod color;
pub mod ray;
pub mod material;
pub mod random;
pub mod sphere;
pub mod scene;
pub mod camera;
pub mod render;

pub use camera::Camera;
pub use color::Color;
pub use material::{Lambertian, Material, Metal};
pub use ray::{HitRecord, Hittable, Point3, Ray};
pub use scene::Scene;
pub use sphere::Sphere;
pub use vec3::Vec3;
