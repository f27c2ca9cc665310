//! The window of recently added keyframes that loop detection skips, so
//! that a keyframe is not matched against its immediate predecessors.

use vstd::prelude::*;
use std::collections::VecDeque;
use crate::loop_closure::inverted_index::KeyFrameId;

verus! {

broadcast use vstd::std_specs::vecdeque::group_vec_dequeue_axioms;

/// The last `limit` of the ids in `pushed` (all of them when fewer), oldest first.
pub open spec fn last_window(pushed: Seq<KeyFrameId>, limit: usize) -> Seq<KeyFrameId> {
    if pushed.len() <= limit {
        pushed
    } else {
        pushed.subrange(pushed.len() - limit, pushed.len() as int)
    }
}

/// The most recently added keyframes, at most `limit` of them, oldest first.
#[derive(Debug, Clone)]
pub struct RecentKeyFrames {
    ids: VecDeque<KeyFrameId>,
    limit: usize,
}

impl RecentKeyFrames {
    /// The ids in the window, oldest first.
    pub closed spec fn spec_ids(&self) -> Seq<KeyFrameId> {
        self.ids@
    }

    /// The window's size limit.
    pub closed spec fn spec_limit(&self) -> usize {
        self.limit
    }

    /// The window holds at most `limit` ids.
    pub closed spec fn wf(&self) -> bool {
        self.ids@.len() <= self.limit
    }

    /// An empty window holding up to `limit` ids.
    pub fn new(limit: usize) -> (w: Self)
        ensures
            w.wf(),
            w.spec_ids() == Seq::<KeyFrameId>::empty(),
            w.spec_limit() == limit,
    {
        RecentKeyFrames { ids: VecDeque::new(), limit }
    }

    /// Record a new keyframe, dropping the oldest when the window overflows.
    pub fn push(&mut self, kf_id: KeyFrameId)
        requires
            old(self).wf(),
        ensures
            final(self).wf(),
            final(self).spec_limit() == old(self).spec_limit(),
            final(self).spec_ids() == (if old(self).spec_ids().len() + 1 > old(self).spec_limit() {
                old(self).spec_ids().push(kf_id).drop_first()
            } else {
                old(self).spec_ids().push(kf_id)
            }),
            forall|pushed: Seq<KeyFrameId>|
                old(self).spec_ids() == last_window(pushed, old(self).spec_limit()) ==> final(self).spec_ids()
                    == last_window(pushed.push(kf_id), old(self).spec_limit()),
    {
        self.ids.push_back(kf_id);
        if self.ids.len() > self.limit {
            self.ids.pop_front();
        }
        proof {
            assert forall|pushed: Seq<KeyFrameId>|
                old(self).ids@ == last_window(pushed, self.limit) implies self.ids@ == last_window(
                pushed.push(kf_id),
                self.limit,
            ) by {
                let n = pushed.len() as int;
                let l = self.limit as int;
                if n + 1 <= l {
                } else if n <= l {
                    assert(self.ids@ =~= pushed.push(kf_id).subrange(n + 1 - l, n + 1));
                } else {
                    assert(self.ids@ =~= pushed.push(kf_id).subrange(n + 1 - l, n + 1));
                }
            }
        }
    }

    /// Number of ids in the window.
    pub fn len(&self) -> (n: usize)
        ensures
            n == self.spec_ids().len(),
    {
        self.ids.len()
    }

    /// Whether a keyframe is in the window.
    pub fn contains(&self, kf_id: KeyFrameId) -> (b: bool)
        ensures
            b == self.spec_ids().contains(kf_id),
    {
        let mut i: usize = 0;
        while i < self.ids.len()
            invariant
                0 <= i <= self.ids@.len(),
                forall|j: int| 0 <= j < i ==> self.ids@[j] != kf_id,
            decreases self.ids@.len() - i,
        {
            if self.ids[i] == kf_id {
                return true;
            }
            i = i + 1;
        }
        false
    }

    /// The ids in the window, oldest first.
    pub fn to_vec(&self) -> (r: Vec<KeyFrameId>)
        ensures
            r@ == self.spec_ids(),
    {
        let mut r: Vec<KeyFrameId> = Vec::new();
        let mut i: usize = 0;
        while i < self.ids.len()
            invariant
                0 <= i <= self.ids@.len(),
                r@ == self.ids@.take(i as int),
            decreases self.ids@.len() - i,
        {
            r.push(self.ids[i]);
            proof {
                assert(r@ =~= self.ids@.take(i + 1));
            }
            i = i + 1;
        }
        proof {
            assert(self.ids@.take(self.ids@.len() as int) =~= self.ids@);
        }
        r
    }
}

} // verus!
