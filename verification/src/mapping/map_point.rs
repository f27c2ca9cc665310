//! Bookkeeping of a 3D map point: the keyframes that observe it, its match
//! and visibility counters, and whether it has been marked bad.

use vstd::prelude::*;
use std::collections::HashMap;
use crate::features::descriptor::OrbDescriptor;

verus! {

broadcast use vstd::std_specs::hash::group_hash_axioms;

/// Unique identifier for map points.
pub type MapPointId = u64;

/// Keyframe identifier.
pub type KeyFrameId = u64;

/// Observation record of a map point.
#[derive(Debug, Clone)]
pub struct MapPointTrack {
    /// Observing keyframe -> index of the feature in that keyframe
    pub observations: HashMap<KeyFrameId, usize>,
    /// Keyframe that created this point
    pub first_keyframe: KeyFrameId,
    /// Number of times the point was matched
    pub matched_count: u32,
    /// Number of times the point was expected to be visible
    pub visible_count: u32,
    /// Whether the point is marked for removal
    pub bad: bool,
    /// Representative descriptor, used for matching
    pub descriptor: OrbDescriptor,
}

impl MapPointTrack {
    /// A point first observed by keyframe `kf_id` as feature `feat_idx`
    /// with the given descriptor, matched and visible once.
    pub fn new(kf_id: KeyFrameId, feat_idx: usize, descriptor: OrbDescriptor) -> (t: Self)
        ensures
            t.descriptor == descriptor,
            t.observations@ == map![kf_id => feat_idx],
            t.first_keyframe == kf_id,
            t.matched_count == 1,
            t.visible_count == 1,
            !t.bad,
    {
        let mut observations: HashMap<KeyFrameId, usize> = HashMap::new();
        observations.insert(kf_id, feat_idx);
        proof {
            assert(observations@ =~= map![kf_id => feat_idx]);
        }
        MapPointTrack { observations, first_keyframe: kf_id, matched_count: 1, visible_count: 1, bad: false, descriptor }
    }

    /// Record (or replace) the observation by a keyframe.
    pub fn add_observation(&mut self, kf_id: KeyFrameId, feat_idx: usize)
        ensures
            final(self).observations@ == old(self).observations@.insert(kf_id, feat_idx),
            final(self).first_keyframe == old(self).first_keyframe,
            final(self).descriptor == old(self).descriptor,
            final(self).matched_count == old(self).matched_count,
            final(self).visible_count == old(self).visible_count,
            final(self).bad == old(self).bad,
    {
        self.observations.insert(kf_id, feat_idx);
    }

    /// Forget the observation by a keyframe.
    pub fn remove_observation(&mut self, kf_id: KeyFrameId)
        ensures
            final(self).observations@ == old(self).observations@.remove(kf_id),
            final(self).first_keyframe == old(self).first_keyframe,
            final(self).descriptor == old(self).descriptor,
            final(self).matched_count == old(self).matched_count,
            final(self).visible_count == old(self).visible_count,
            final(self).bad == old(self).bad,
    {
        self.observations.remove(&kf_id);
    }

    /// Number of observing keyframes.
    pub fn num_observations(&self) -> (n: usize)
        ensures
            n == self.observations@.len(),
    {
        self.observations.len()
    }

    /// Whether a keyframe observes the point.
    pub fn is_observed_by(&self, kf_id: KeyFrameId) -> (b: bool)
        ensures
            b == self.observations@.contains_key(kf_id),
    {
        self.observations.contains_key(&kf_id)
    }

    /// The feature index under which a keyframe observes the point.
    pub fn get_observation(&self, kf_id: KeyFrameId) -> (r: Option<usize>)
        ensures
            self.observations@.contains_key(kf_id) ==> r == Some(self.observations@[kf_id]),
            !self.observations@.contains_key(kf_id) ==> r is None,
    {
        match self.observations.get(&kf_id) {
            Some(f) => Some(*f),
            None => None,
        }
    }

    /// Count one more match.
    pub fn increment_matched(&mut self)
        requires
            old(self).matched_count < u32::MAX,
        ensures
            final(self).matched_count == old(self).matched_count + 1,
            final(self).visible_count == old(self).visible_count,
            final(self).observations@ == old(self).observations@,
            final(self).first_keyframe == old(self).first_keyframe,
            final(self).descriptor == old(self).descriptor,
            final(self).bad == old(self).bad,
    {
        self.matched_count = self.matched_count + 1;
    }

    /// Count one more expected sighting.
    pub fn increment_visible(&mut self)
        requires
            old(self).visible_count < u32::MAX,
        ensures
            final(self).visible_count == old(self).visible_count + 1,
            final(self).matched_count == old(self).matched_count,
            final(self).observations@ == old(self).observations@,
            final(self).first_keyframe == old(self).first_keyframe,
            final(self).descriptor == old(self).descriptor,
            final(self).bad == old(self).bad,
    {
        self.visible_count = self.visible_count + 1;
    }

    /// Mark the point for removal.
    pub fn set_bad(&mut self)
        ensures
            final(self).bad,
            final(self).observations@ == old(self).observations@,
            final(self).first_keyframe == old(self).first_keyframe,
            final(self).descriptor == old(self).descriptor,
            final(self).matched_count == old(self).matched_count,
            final(self).visible_count == old(self).visible_count,
    {
        self.bad = true;
    }

    /// The culling decision before the found-ratio test: the point is bad,
    /// or it has fewer than `min_observations` observers although it was
    /// matched more than twice.
    pub fn cull_by_observations(&self, min_observations: usize) -> (b: bool)
        ensures
            b == (self.bad || (self.observations@.len() < min_observations && self.matched_count > 2)),
    {
        self.bad || (self.observations.len() < min_observations && self.matched_count > 2)
    }
}

/// Recording an observation by a keyframe that did not observe the point and
/// then forgetting it leaves the observations as they were.
pub proof fn lemma_add_then_remove_observation(
    before: MapPointTrack,
    added: MapPointTrack,
    removed: MapPointTrack,
    kf_id: KeyFrameId,
    feat_idx: usize,
)
    requires
        !before.observations@.contains_key(kf_id),
        added.observations@ == before.observations@.insert(kf_id, feat_idx),
        removed.observations@ == added.observations@.remove(kf_id),
    ensures
        removed.observations@ == before.observations@,
{
    assert(removed.observations@ =~= before.observations@);
}

} // verus!
