//! The control logic of a small sphere ray tracer: which intersection is
//! accepted, which hit is nearest, whether a surface scatters, and how far a
//! light path is followed.
//!
//! Numbers are single-precision floating-point values held as their bit
//! patterns ([`scalar::Scalar`]). The library compares them and carries them
//! through; it never adds or multiplies them. Whoever uses it computes the
//! geometry in floating point and hands the results over:
//!
//! - for a sphere, the discriminant and the two crossings of the ray
//!   ([`geometry::Crossings`]); [`geometry::Sphere::hit`] decides which of
//!   them, if any, is the hit;
//! - for a surface, the direction of the scattered ray;
//!   [`materials::Lambertian::scatter`] and [`materials::Metal::scatter`]
//!   decide whether the ray leaves at all;
//! - for a whole path, the objects and materials themselves, as
//!   implementations of [`rays::Hittable`] and [`materials::Material`];
//!   [`shader::trace`] follows the ray from bounce to bounce and returns the
//!   path, from which the colour is a product.

pub mod geometry;
pub mod materials;
pub mod rays;
pub mod scalar;
pub mod shader;
pub mod util;
pub mod vecmath;
