//! QR code target support: the run-length scans behind finder pattern
//! detection.

pub mod finder;
