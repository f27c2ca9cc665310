//! Feature detection: grayscale conversion, FAST corners, ORB descriptors
//! and descriptor matching.

pub mod descriptor;
pub mod matcher;
pub mod match_order;
pub mod nms;
pub mod fast;
pub mod grayscale;
pub mod orientation;
