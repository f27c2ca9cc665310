//! Ordering of matches: by Hamming distance alone, lower first.

use vstd::prelude::*;
use core::cmp::Ordering;
use vstd::std_specs::cmp::PartialOrdSpecImpl;
use crate::features::matcher::Match;

verus! {

/// Three-way comparison of two distances.
pub open spec fn distance_order(a: u32, b: u32) -> Ordering {
    if a < b {
        Ordering::Less
    } else if a == b {
        Ordering::Equal
    } else {
        Ordering::Greater
    }
}

impl PartialOrd for Match {
    /// Compare by distance only.
    fn partial_cmp(&self, other: &Self) -> (r: Option<Ordering>) {
        if self.distance < other.distance {
            Some(Ordering::Less)
        } else if self.distance == other.distance {
            Some(Ordering::Equal)
        } else {
            Some(Ordering::Greater)
        }
    }
}

impl PartialOrdSpecImpl for Match {
    open spec fn obeys_partial_cmp_spec() -> bool {
        true
    }

    open spec fn partial_cmp_spec(&self, other: &Self) -> Option<Ordering> {
        Some(distance_order(self.distance, other.distance))
    }
}

impl Ord for Match {
    /// Compare by distance only: matches at equal distance compare `Equal`.
    /// Trusted: the body is std's `Ord::cmp` on the two `u32` distances,
    /// which std documents as the usual total order of integers.
    #[verifier::external_body]
    fn cmp(&self, other: &Self) -> (r: Ordering)
        ensures
            r == distance_order(self.distance, other.distance),
    {
        self.distance.cmp(&other.distance)
    }
}

} // verus!
