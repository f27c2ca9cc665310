//! Keyframe selection decisions and map point bookkeeping.

pub mod keyframe;
pub mod keyframe_selection;
pub mod map;
pub mod map_point;
