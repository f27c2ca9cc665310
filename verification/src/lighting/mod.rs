//! Lighting analysis on integer image data: luminance histograms,
//! 4x downsampling and white-pixel detection, and the schedule of analysed frames.

pub mod histogram;
pub mod analyzer;
pub mod color_temp;
pub mod schedule;
