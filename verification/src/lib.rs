//! Sphere tracing of signed-distance fields in fixed-point arithmetic.
//!
//! Every quantity is a [`scalar::Scalar`]: a signed count of 1/65536 units
//! whose operations saturate at the ends of its range. On top of that sit
//! three-component vectors, the primitive distance functions, the smooth
//! union that fuses them into one field, the ray marcher with its normal
//! estimator, the shader and the per-pixel frame driver.

pub mod scalar;
pub mod vector;
pub mod sdf;
pub mod blend;
pub mod raytracer;
pub mod shade;
pub mod frame;
