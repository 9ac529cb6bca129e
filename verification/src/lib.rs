//! A Monte-Carlo path tracer core over exact fixed-point arithmetic.
//!
//! Geometry lives on an integer grid with `math::UNIT` sub-units per world
//! unit, and ray parameters are exact rationals, so every intersection
//! routine, the bounding-volume hierarchy and the recursive radiance
//! estimator carry exact contracts.

pub mod math;
pub mod ratio;
pub mod vec3;
pub mod ray;
pub mod aabb;
pub mod color;
pub mod texture;
pub mod rng;
pub mod material;
pub mod sphere;
pub mod triangle;
pub mod hitable;
pub mod integrator;
