//! A Monte Carlo path tracer over saturating fixed-point arithmetic.
//!
//! Every quantity (coordinates, ray parameters, colour channels) is a raw
//! `i64` that stands for `raw / ONE`; every operation saturates at
//! `±LIMIT`, the way a float overflows to an infinity.
pub mod fixed;
pub mod vec3;
pub mod ray;
pub mod random;
pub mod material;
pub mod hittable;
pub mod sphere;
pub mod hittable_list;
pub mod camera;
pub mod render;
pub mod ppm;
