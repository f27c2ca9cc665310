//! Plane classification and the random number generator used by RANSAC.

pub mod plane;
pub mod ransac;
