//! Classification of detected planes.

use vstd::prelude::*;

verus! {

/// Classification of detected planes.
#[derive(Debug, Clone, Copy, PartialEq, Eq, Structural)]
pub enum PlaneType {
    /// Horizontal plane facing up (floor)
    HorizontalUp,
    /// Horizontal plane facing down (ceiling)
    HorizontalDown,
    /// Vertical plane (wall)
    Vertical,
    /// Plane at an angle that doesn't fit other categories
    Arbitrary,
}

impl PlaneType {
    /// Check if this is a horizontal plane (floor or ceiling).
    pub fn is_horizontal(&self) -> (b: bool)
        ensures
            b == (*self == PlaneType::HorizontalUp || *self == PlaneType::HorizontalDown),
    {
        match self {
            PlaneType::HorizontalUp | PlaneType::HorizontalDown => true,
            _ => false,
        }
    }

    /// Check if this is a vertical plane (wall).
    pub fn is_vertical(&self) -> (b: bool)
        ensures
            b == (*self == PlaneType::Vertical),
    {
        match self {
            PlaneType::Vertical => true,
            _ => false,
        }
    }
}

/// No plane type is both horizontal and vertical.
pub proof fn lemma_horizontal_not_vertical(t: PlaneType)
    ensures
        !((t == PlaneType::HorizontalUp || t == PlaneType::HorizontalDown) && t
            == PlaneType::Vertical),
{
}

} // verus!
