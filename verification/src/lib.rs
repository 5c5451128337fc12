//! A statistics engine for robust operating curves: for a grid of
//! quality-acceptance thresholds, it estimates the precision achievable at a
//! target false-negative rate, made resilient to sampling noise by bootstrap
//! resampling.
//!
//! All scores, thresholds, and curve values are fixed-point numbers: an `i64`
//! carrying the value scaled by [`units::SCALE`]. Callers that work in
//! floating point convert at the boundary.

pub mod aggregate;
pub mod confusion;
pub mod errors;
pub mod grids;
pub mod interpolate;
pub mod report;
pub mod robust;
pub mod sampling;
pub mod units;
