//! A fixed-point stochastic ray tracer: spheres, a three-material
//! scattering model, and a camera that drives recursive path evaluation
//! and multi-sample accumulation.  All scalar quantities are fixed-point
//! `i64` values with 16 fractional bits, and every operation carries an
//! exact contract over the mathematical integers.

pub mod camera;
pub mod fixed;
pub mod hittable;
pub mod material;
pub mod ray;
pub mod rng;
pub mod sphere;
pub mod vec3;
