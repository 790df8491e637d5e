//! A CPU-side recursive ray tracer core on saturating fixed-point arithmetic.
//!
//! Every scalar (coordinate, ray parameter, light intensity, reflectivity)
//! is a fixed-point number: an `i64` or `i128` holding `value * SCALE` with
//! `SCALE = 1_000_000`.  All geometry operations saturate their results into
//! a fixed coordinate band, which keeps every intermediate product inside
//! `i128` and lets each function carry an exact contract.

pub mod canvas;
pub mod color;
pub mod fixed;
pub mod light;
pub mod math;
pub mod primitive;
pub mod scene;
