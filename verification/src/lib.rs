//! An analytic ray-tracing core: fixed-point 3D vector algebra, rays,
//! sphere intersection, a closest-hit scene query, an orbit camera, and a
//! normal/sky-gradient shader producing packed 24-bit RGB frames.
//!
//! Scalars are fixed-point numbers with 16 fractional bits (see `fx`);
//! every operation has an exact integer contract.

pub mod camera;
pub mod color;
pub mod fx;
pub mod hittable;
pub mod hittable_list;
pub mod ray;
pub mod render;
pub mod shader;
pub mod sphere;
pub mod vec3;

pub use camera::{Camera, InputState};
pub use color::Color;
pub use fx::Fx;
pub use hittable::{HitRecord, Hittable};
pub use hittable_list::HittableList;
pub use sphere::Sphere;
pub use shader::ray_color;
pub use render::render_frame;
pub use ray::Ray;
pub use vec3::Vec3;
