//! The global map: keyframes and map points with the links between them
//! (which map point each keyframe feature observes, which keyframes observe
//! each map point, covisibility counts and the spanning tree).
//!
//! Each keyframe and map point carries a payload of the caller's choosing
//! (pose, position, ...), which the map keeps but never reads.

use vstd::prelude::*;
use std::collections::HashMap;
use crate::features::descriptor::OrbDescriptor;
use crate::loop_closure::inverted_index::without;
use crate::mapping::keyframe::{KeyFrameLinks, keys_of, somes, with_children, with_slot, without_point};
use crate::mapping::map_point::{KeyFrameId, MapPointId, MapPointTrack};

verus! {

broadcast use vstd::std_specs::hash::group_hash_axioms;

/// Two keyframe links agree on everything but their map point slots.
pub open spec fn same_but_slots(a: KeyFrameLinks, b: KeyFrameLinks) -> bool {
    &&& a.descriptors@ == b.descriptors@
    &&& a.covisible@ == b.covisible@
    &&& a.parent == b.parent
    &&& a.children@ == b.children@
    &&& a.bad == b.bad
}

/// Two keyframe links agree on their features and their removal mark.
pub open spec fn same_features(a: KeyFrameLinks, b: KeyFrameLinks) -> bool {
    &&& a.map_points@ == b.map_points@
    &&& a.descriptors@ == b.descriptors@
    &&& a.bad == b.bad
}

/// Two map point tracks agree on everything but their observations.
pub open spec fn same_but_observations(a: MapPointTrack, b: MapPointTrack) -> bool {
    &&& a.first_keyframe == b.first_keyframe
    &&& a.matched_count == b.matched_count
    &&& a.visible_count == b.visible_count
    &&& a.bad == b.bad
    &&& a.descriptor == b.descriptor
}

/// The slots of keyframe `k` once feature `f1` of keyframe `kf1` and then
/// feature `f2` of keyframe `kf2` are linked to map point `mp`.
pub open spec fn linked_slots(
    slots: Seq<Option<MapPointId>>,
    k: KeyFrameId,
    kf1: KeyFrameId,
    f1: usize,
    kf2: KeyFrameId,
    f2: usize,
    mp: MapPointId,
) -> Seq<Option<MapPointId>> {
    let s1 = if k == kf1 { with_slot(slots, f1 as int, mp) } else { slots };
    if k == kf2 { with_slot(s1, f2 as int, mp) } else { s1 }
}

/// Keyframe `kf1` has a descriptor for its feature `f1`.
pub open spec fn has_descriptor<K>(keyframes: Map<KeyFrameId, (KeyFrameLinks, K)>, kf1: KeyFrameId, f1: usize) -> bool {
    &&& keyframes.contains_key(kf1)
    &&& f1 < keyframes[kf1].0.descriptors@.len()
    &&& keyframes[kf1].0.descriptors@[f1 as int] is Some
}

/// The links `after` of keyframe `k` once keyframe `gone`, whose links were
/// `kf`, is removed from the map: `gone` leaves the covisible keyframes, and
/// the children of `gone` pass to its parent.
pub open spec fn relinked_after_removal(
    after: KeyFrameLinks,
    before: KeyFrameLinks,
    k: KeyFrameId,
    gone: KeyFrameId,
    kf: KeyFrameLinks,
) -> bool {
    &&& same_features(after, before)
    &&& after.covisible@ == (if kf.covisible@.contains_key(k) {
        before.covisible@.remove(gone)
    } else {
        before.covisible@
    })
    &&& after.parent == (if kf.parent is Some && kf.children@.contains(k) { kf.parent } else { before.parent })
    &&& after.children@ == (if kf.parent == Some(k) {
        with_children(without(before.children@, gone), kf.children@)
    } else {
        before.children@
    })
}

/// Number of the map points listed in `ids` (counted with repetition) that
/// exist in `points` and are observed by keyframe `other`.
pub open spec fn shared_count<P>(points: Map<MapPointId, (MapPointTrack, P)>, ids: Seq<MapPointId>, other: KeyFrameId) -> nat
    decreases ids.len(),
{
    if ids.len() == 0 {
        0
    } else {
        shared_count(points, ids.drop_last(), other) + (if points.contains_key(ids.last())
            && points[ids.last()].0.observations@.contains_key(other) {
            1nat
        } else {
            0nat
        })
    }
}

/// Covisibility of keyframe `kf_id`, whose features hold map points `ids`:
/// every other keyframe observing at least one of them, with the number of
/// them it observes.
pub open spec fn covisibility<P>(points: Map<MapPointId, (MapPointTrack, P)>, ids: Seq<MapPointId>, kf_id: KeyFrameId) -> Map<
    KeyFrameId,
    u32,
> {
    Map::new(
        |o: KeyFrameId| o != kf_id && shared_count(points, ids, o) > 0,
        |o: KeyFrameId| shared_count(points, ids, o) as u32,
    )
}

/// The counts after the first `j` map points of `ids` and the first `i`
/// observers `obs` of the next one.
spec fn tally<P>(
    points: Map<MapPointId, (MapPointTrack, P)>,
    ids: Seq<MapPointId>,
    j: int,
    obs: Seq<KeyFrameId>,
    i: int,
    kf_id: KeyFrameId,
) -> Map<KeyFrameId, u32> {
    Map::new(
        |o: KeyFrameId| o != kf_id && shared_count(points, ids.take(j), o) + (if obs.take(i).contains(o) { 1int } else { 0 }) > 0,
        |o: KeyFrameId| (shared_count(points, ids.take(j), o) + (if obs.take(i).contains(o) { 1int } else { 0 })) as u32,
    )
}

proof fn lemma_shared_count_bound<P>(points: Map<MapPointId, (MapPointTrack, P)>, ids: Seq<MapPointId>, other: KeyFrameId)
    ensures
        shared_count(points, ids, other) <= ids.len(),
    decreases ids.len(),
{
    if ids.len() > 0 {
        lemma_shared_count_bound(points, ids.drop_last(), other);
    }
}

/// Every map point a keyframe feature refers to exists and counts that
/// keyframe among its observers.
pub open spec fn slots_observed<K, P>(
    keyframes: Map<KeyFrameId, (KeyFrameLinks, K)>,
    points: Map<MapPointId, (MapPointTrack, P)>,
) -> bool {
    forall|k: KeyFrameId, i: int|
        #![trigger keyframes[k].0.map_points@[i]]
        keyframes.contains_key(k) && 0 <= i < keyframes[k].0.map_points@.len() && keyframes[k].0.map_points@[i] is Some
            ==> points.contains_key(keyframes[k].0.map_points@[i]->0)
            && points[keyframes[k].0.map_points@[i]->0].0.observations@.contains_key(k)
}

/// Every keyframe a map point counts among its observers, if it exists,
/// refers to that map point from one of its features.
pub open spec fn observers_linked<K, P>(
    keyframes: Map<KeyFrameId, (KeyFrameLinks, K)>,
    points: Map<MapPointId, (MapPointTrack, P)>,
) -> bool {
    forall|p: MapPointId, k: KeyFrameId|
        #![trigger points[p].0.observations@.contains_key(k), keyframes.contains_key(k)]
        points.contains_key(p) && points[p].0.observations@.contains_key(k) && keyframes.contains_key(k)
            ==> keyframes[k].0.map_points@.contains(Some(p))
}

/// Covisibility is mutual: when a keyframe lists another as covisible, the
/// other lists it back.
pub open spec fn covisibility_mutual<K>(keyframes: Map<KeyFrameId, (KeyFrameLinks, K)>) -> bool {
    forall|a: KeyFrameId, b: KeyFrameId|
        #![trigger keyframes[a].0.covisible@.contains_key(b), keyframes.contains_key(b)]
        keyframes.contains_key(a) && keyframes.contains_key(b) && keyframes[a].0.covisible@.contains_key(b)
            ==> keyframes[b].0.covisible@.contains_key(a)
}

proof fn lemma_somes_contains<T>(s: Seq<Option<T>>, x: T)
    ensures
        s.contains(Some(x)) ==> somes(s).contains(x),
    decreases s.len(),
{
    if s.len() > 0 && s.contains(Some(x)) {
        let i = choose|i: int| 0 <= i < s.len() && s[i] == Some(x);
        if i == s.len() - 1 {
            assert(somes(s).last() == x);
        } else {
            assert(s.drop_last()[i] == Some(x));
            lemma_somes_contains(s.drop_last(), x);
            let r = somes(s.drop_last());
            let j = choose|j: int| 0 <= j < r.len() && r[j] == x;
            assert(somes(s)[j] == x);
        }
    }
}

proof fn lemma_point_removal_unlinks<K, P>(
    ok: Map<KeyFrameId, (KeyFrameLinks, K)>,
    op: Map<MapPointId, (MapPointTrack, P)>,
    nk: Map<KeyFrameId, (KeyFrameLinks, K)>,
    np: Map<MapPointId, (MapPointTrack, P)>,
    id: MapPointId,
)
    requires
        slots_observed(ok, op),
        np == op.remove(id),
        nk.dom() == ok.dom(),
        forall|k: KeyFrameId| #[trigger] ok.contains_key(k) ==> nk[k].0.map_points@ == (if op.contains_key(id)
            && op[id].0.observations@.contains_key(k) {
            without_point(ok[k].0.map_points@, id)
        } else {
            ok[k].0.map_points@
        }),
    ensures
        slots_observed(nk, np),
        forall|k: KeyFrameId| #[trigger] nk.contains_key(k) ==> !nk[k].0.map_points@.contains(Some(id)),
{
    assert forall|k: KeyFrameId, i: int|
        nk.contains_key(k) && 0 <= i < nk[k].0.map_points@.len() && #[trigger] nk[k].0.map_points@[i] is Some implies
        np.contains_key(nk[k].0.map_points@[i]->0) && np[nk[k].0.map_points@[i]->0].0.observations@.contains_key(k) by {
        assert(ok.contains_key(k));
        assert(ok[k].0.map_points@[i] == nk[k].0.map_points@[i]);
    }
    assert forall|k: KeyFrameId| #[trigger] nk.contains_key(k) implies !nk[k].0.map_points@.contains(Some(id)) by {
        assert(ok.contains_key(k));
        if nk[k].0.map_points@.contains(Some(id)) {
            let i = choose|i: int| 0 <= i < nk[k].0.map_points@.len() && nk[k].0.map_points@[i] == Some(id);
            assert(ok[k].0.map_points@[i] == Some(id));
        }
    }
}

proof fn lemma_keyframe_removal_unlinks<K, P>(
    ok: Map<KeyFrameId, (KeyFrameLinks, K)>,
    op: Map<MapPointId, (MapPointTrack, P)>,
    nk: Map<KeyFrameId, (KeyFrameLinks, K)>,
    np: Map<MapPointId, (MapPointTrack, P)>,
    id: KeyFrameId,
)
    requires
        ok.contains_key(id),
        nk.dom() == ok.dom().remove(id),
        np.dom() == op.dom(),
        forall|p: MapPointId| #[trigger] op.contains_key(p) ==> np[p].0.observations@ == (if somes(
            ok[id].0.map_points@,
        ).contains(p) {
            op[p].0.observations@.remove(id)
        } else {
            op[p].0.observations@
        }),
        forall|k: KeyFrameId| #[trigger] nk.contains_key(k) ==> relinked_after_removal(nk[k].0, ok[k].0, k, id, ok[id].0),
    ensures
        slots_observed(ok, op) ==> slots_observed(nk, np),
        observers_linked(ok, op) ==> forall|p: MapPointId| #[trigger] np.contains_key(p) ==> !np[p].0.observations@.contains_key(id),
        covisibility_mutual(ok) ==> forall|k: KeyFrameId| #[trigger] nk.contains_key(k) ==> !nk[k].0.covisible@.contains_key(id),
{
    if slots_observed(ok, op) {
        assert forall|k: KeyFrameId, i: int|
            nk.contains_key(k) && 0 <= i < nk[k].0.map_points@.len() && #[trigger] nk[k].0.map_points@[i] is Some implies
            np.contains_key(nk[k].0.map_points@[i]->0) && np[nk[k].0.map_points@[i]->0].0.observations@.contains_key(k) by {
            assert(ok.contains_key(k) && k != id);
            assert(ok[k].0.map_points@[i] == nk[k].0.map_points@[i]);
        }
    }
    if observers_linked(ok, op) {
        assert forall|p: MapPointId| #[trigger] np.contains_key(p) implies !np[p].0.observations@.contains_key(id) by {
            if op[p].0.observations@.contains_key(id) {
                assert(ok[id].0.map_points@.contains(Some(p)));
                lemma_somes_contains(ok[id].0.map_points@, p);
            }
        }
    }
    if covisibility_mutual(ok) {
        assert forall|k: KeyFrameId| #[trigger] nk.contains_key(k) implies !nk[k].0.covisible@.contains_key(id) by {
            assert(ok.contains_key(k));
            if !ok[id].0.covisible@.contains_key(k) && ok[k].0.covisible@.contains_key(id) {
                assert(ok[id].0.covisible@.contains_key(k));
            }
        }
    }
}

proof fn lemma_creation_keeps_slots_observed<K, P>(
    ok: Map<KeyFrameId, (KeyFrameLinks, K)>,
    op: Map<MapPointId, (MapPointTrack, P)>,
    nk: Map<KeyFrameId, (KeyFrameLinks, K)>,
    np: Map<MapPointId, (MapPointTrack, P)>,
    id: MapPointId,
    kf1: KeyFrameId,
    f1: usize,
    kf2: KeyFrameId,
    f2: usize,
)
    requires
        slots_observed(ok, op),
        !op.contains_key(id),
        np == op.insert(id, np[id]),
        np[id].0.observations@ == map![kf1 => f1].insert(kf2, f2),
        nk.dom() == ok.dom(),
        forall|k: KeyFrameId| #[trigger] ok.contains_key(k) ==> nk[k].0.map_points@ == linked_slots(
            ok[k].0.map_points@,
            k,
            kf1,
            f1,
            kf2,
            f2,
            id,
        ),
    ensures
        slots_observed(nk, np),
{
    assert forall|k: KeyFrameId, i: int|
        nk.contains_key(k) && 0 <= i < nk[k].0.map_points@.len() && #[trigger] nk[k].0.map_points@[i] is Some implies
        np.contains_key(nk[k].0.map_points@[i]->0) && np[nk[k].0.map_points@[i]->0].0.observations@.contains_key(k) by {
        assert(ok.contains_key(k));
        let s = ok[k].0.map_points@;
        let p = nk[k].0.map_points@[i]->0;
        if p != id {
            assert(s[i] == nk[k].0.map_points@[i]);
            assert(op.contains_key(p));
        } else {
            if s.len() > i && s[i] == Some(id) {
                assert(op.contains_key(id));
            }
            assert(k == kf1 || k == kf2);
        }
    }
}

/// Sum of the observation counts of the map points with ids `ks`.
pub open spec fn observation_total<P>(points: Map<MapPointId, (MapPointTrack, P)>, ks: Seq<MapPointId>) -> int
    decreases ks.len(),
{
    if ks.len() == 0 {
        0
    } else {
        observation_total(points, ks.drop_last()) + points[ks.last()].0.observations@.len()
    }
}

proof fn lemma_observation_total_prefix<P>(points: Map<MapPointId, (MapPointTrack, P)>, ks: Seq<MapPointId>, n: int)
    requires
        0 <= n <= ks.len(),
    ensures
        0 <= observation_total(points, ks.take(n)) <= observation_total(points, ks),
    decreases ks.len() - n,
{
    if n < ks.len() {
        lemma_observation_total_prefix(points, ks, n + 1);
        assert(ks.take(n + 1).drop_last() =~= ks.take(n));
        lemma_observation_total_nonneg(points, ks.take(n));
        assert(observation_total(points, ks.take(n + 1)) == observation_total(points, ks.take(n))
            + points[ks.take(n + 1).last()].0.observations@.len());
    } else {
        assert(ks.take(n) =~= ks);
        lemma_observation_total_nonneg(points, ks);
    }
}

proof fn lemma_observation_total_nonneg<P>(points: Map<MapPointId, (MapPointTrack, P)>, ks: Seq<MapPointId>)
    ensures
        observation_total(points, ks) >= 0,
    decreases ks.len(),
{
    if ks.len() > 0 {
        lemma_observation_total_nonneg(points, ks.drop_last());
    }
}

/// The global map of keyframes and map points.
#[derive(Debug)]
pub struct MapGraph<K, P> {
    /// All keyframes: links and payload, by id
    pub keyframes: HashMap<KeyFrameId, (KeyFrameLinks, K)>,
    /// All map points: track and payload, by id
    pub map_points: HashMap<MapPointId, (MapPointTrack, P)>,
    /// The id the next added keyframe gets
    pub next_kf_id: KeyFrameId,
    /// The id the next added map point gets
    pub next_mp_id: MapPointId,
}

impl<K, P> MapGraph<K, P> {
    /// An empty map.
    pub fn new() -> (m: Self)
        ensures
            m.keyframes@ == Map::<KeyFrameId, (KeyFrameLinks, K)>::empty(),
            m.map_points@ == Map::<MapPointId, (MapPointTrack, P)>::empty(),
            m.next_kf_id == 0,
            m.next_mp_id == 0,
    {
        MapGraph { keyframes: HashMap::new(), map_points: HashMap::new(), next_kf_id: 0, next_mp_id: 0 }
    }

    /// Number of keyframes.
    pub fn num_keyframes(&self) -> (n: usize)
        ensures
            n == self.keyframes@.len(),
    {
        self.keyframes.len()
    }

    /// Number of map points.
    pub fn num_map_points(&self) -> (n: usize)
        ensures
            n == self.map_points@.len(),
    {
        self.map_points.len()
    }

    /// Whether the map holds neither keyframes nor map points.
    pub fn is_empty(&self) -> (b: bool)
        ensures
            b == (self.keyframes@.len() == 0 && self.map_points@.len() == 0),
    {
        self.keyframes.is_empty() && self.map_points.is_empty()
    }

    /// Add a keyframe under the next keyframe id, and return that id.
    pub fn add_keyframe(&mut self, links: KeyFrameLinks, data: K) -> (id: KeyFrameId)
        requires
            old(self).next_kf_id < u64::MAX,
        ensures
            id == old(self).next_kf_id,
            final(self).next_kf_id == id + 1,
            final(self).next_mp_id == old(self).next_mp_id,
            final(self).keyframes@ == old(self).keyframes@.insert(id, (links, data)),
            final(self).map_points@ == old(self).map_points@,
    {
        let id = self.next_kf_id;
        self.next_kf_id = self.next_kf_id + 1;
        self.keyframes.insert(id, (links, data));
        id
    }

    /// Add a map point under the next map point id, and return that id.
    pub fn add_map_point(&mut self, track: MapPointTrack, data: P) -> (id: MapPointId)
        requires
            old(self).next_mp_id < u64::MAX,
        ensures
            id == old(self).next_mp_id,
            final(self).next_mp_id == id + 1,
            final(self).next_kf_id == old(self).next_kf_id,
            final(self).map_points@ == old(self).map_points@.insert(id, (track, data)),
            final(self).keyframes@ == old(self).keyframes@,
    {
        let id = self.next_mp_id;
        self.next_mp_id = self.next_mp_id + 1;
        self.map_points.insert(id, (track, data));
        id
    }

    /// The keyframe with an id, if any.
    pub fn get_keyframe(&self, id: KeyFrameId) -> (r: Option<&(KeyFrameLinks, K)>)
        ensures
            self.keyframes@.contains_key(id) ==> r == Some(&self.keyframes@[id]),
            !self.keyframes@.contains_key(id) ==> r is None,
    {
        self.keyframes.get(&id)
    }

    /// The map point with an id, if any.
    pub fn get_map_point(&self, id: MapPointId) -> (r: Option<&(MapPointTrack, P)>)
        ensures
            self.map_points@.contains_key(id) ==> r == Some(&self.map_points@[id]),
            !self.map_points@.contains_key(id) ==> r is None,
    {
        self.map_points.get(&id)
    }

    /// The ids of all keyframes, each once.
    pub fn get_keyframe_ids(&self) -> (r: Vec<KeyFrameId>)
        ensures
            r@.to_set() == self.keyframes@.dom(),
            r@.no_duplicates(),
    {
        keys_of(&self.keyframes)
    }

    /// The id of the last keyframe added, if any was.
    pub fn last_keyframe_id(&self) -> (r: Option<KeyFrameId>)
        ensures
            r == (if self.next_kf_id == 0 { None } else { Some((self.next_kf_id - 1) as KeyFrameId) }),
    {
        if self.next_kf_id == 0 {
            None
        } else {
            Some(self.next_kf_id - 1)
        }
    }

    /// The last keyframe added, if any was and it is still in the map.
    pub fn get_last_keyframe(&self) -> (r: Option<&(KeyFrameLinks, K)>)
        ensures
            self.next_kf_id > 0 && self.keyframes@.contains_key((self.next_kf_id - 1) as KeyFrameId) ==> r
                == Some(&self.keyframes@[(self.next_kf_id - 1) as KeyFrameId]),
            !(self.next_kf_id > 0 && self.keyframes@.contains_key((self.next_kf_id - 1) as KeyFrameId)) ==> r is None,
    {
        if self.next_kf_id == 0 {
            return None;
        }
        self.keyframes.get(&(self.next_kf_id - 1))
    }

    /// Total number of observations over all map points (the sum does not
    /// depend on the order the points are taken in).
    pub fn total_observations(&self) -> (n: usize)
        requires
            forall|ks: Seq<MapPointId>|
                ks.no_duplicates() && ks.to_set() == self.map_points@.dom() ==> #[trigger] observation_total(
                    self.map_points@,
                    ks,
                ) <= usize::MAX,
        ensures
            exists|ks: Seq<MapPointId>|
                ks.no_duplicates() && ks.to_set() == self.map_points@.dom() && n == observation_total(
                    self.map_points@,
                    ks,
                ),
    {
        let keys = keys_of(&self.map_points);
        proof {
            assert(observation_total(self.map_points@, keys@) <= usize::MAX);
        }
        let mut total: usize = 0;
        let mut i: usize = 0;
        while i < keys.len()
            invariant
                0 <= i <= keys@.len(),
                keys@.to_set() == self.map_points@.dom(),
                observation_total(self.map_points@, keys@) <= usize::MAX,
                total == observation_total(self.map_points@, keys@.take(i as int)),
            decreases keys@.len() - i,
        {
            let k = keys[i];
            proof {
                assert(keys@.to_set().contains(k));
                assert(keys@.take(i + 1).drop_last() =~= keys@.take(i as int));
                lemma_observation_total_prefix(self.map_points@, keys@, i + 1);
            }
            let n = self.map_points.get(&k).unwrap().0.num_observations();
            total = total + n;
            i = i + 1;
        }
        proof {
            assert(keys@.take(keys@.len() as int) =~= keys@);
        }
        total
    }

    /// Empty the map and restart the ids from zero.
    pub fn clear(&mut self)
        ensures
            final(self).keyframes@ == Map::<KeyFrameId, (KeyFrameLinks, K)>::empty(),
            final(self).map_points@ == Map::<MapPointId, (MapPointTrack, P)>::empty(),
            final(self).next_kf_id == 0,
            final(self).next_mp_id == 0,
    {
        self.keyframes.clear();
        self.map_points.clear();
        self.next_kf_id = 0;
        self.next_mp_id = 0;
    }

    /// Link feature `feat_idx` of keyframe `kf_id` to map point `mp_id`,
    /// when that keyframe exists.
    fn link_feature(&mut self, kf_id: KeyFrameId, feat_idx: usize, mp_id: MapPointId)
        ensures
            final(self).keyframes@.dom() == old(self).keyframes@.dom(),
            forall|k: KeyFrameId| #[trigger] old(self).keyframes@.contains_key(k) ==> {
                &&& final(self).keyframes@[k].1 == old(self).keyframes@[k].1
                &&& same_but_slots(final(self).keyframes@[k].0, old(self).keyframes@[k].0)
                &&& final(self).keyframes@[k].0.map_points@ == (if k == kf_id {
                    with_slot(old(self).keyframes@[k].0.map_points@, feat_idx as int, mp_id)
                } else {
                    old(self).keyframes@[k].0.map_points@
                })
            },
            final(self).map_points@ == old(self).map_points@,
            final(self).next_kf_id == old(self).next_kf_id,
            final(self).next_mp_id == old(self).next_mp_id,
    {
        match self.keyframes.remove(&kf_id) {
            Some(entry) => {
                let (mut links, data) = entry;
                links.set_map_point(feat_idx, mp_id);
                self.keyframes.insert(kf_id, (links, data));
            },
            None => {},
        }
    }

    /// Create a map point seen as feature `feat1_idx` of keyframe `kf1_id`
    /// and feature `feat2_idx` of keyframe `kf2_id`, taking its descriptor
    /// from the first, and link both features to it. Returns `None`, and
    /// changes nothing, when the first keyframe has no descriptor there.
    pub fn create_map_point(
        &mut self,
        data: P,
        kf1_id: KeyFrameId,
        feat1_idx: usize,
        kf2_id: KeyFrameId,
        feat2_idx: usize,
    ) -> (r: Option<MapPointId>)
        requires
            old(self).next_mp_id < u64::MAX,
        ensures
            slots_observed(old(self).keyframes@, old(self).map_points@) && !old(self).map_points@.contains_key(
                old(self).next_mp_id,
            ) ==> slots_observed(final(self).keyframes@, final(self).map_points@),
            r is None <==> !has_descriptor(old(self).keyframes@, kf1_id, feat1_idx),
            r is None ==> {
                &&& final(self).keyframes@ == old(self).keyframes@
                &&& final(self).map_points@ == old(self).map_points@
                &&& final(self).next_mp_id == old(self).next_mp_id
            },
            r matches Some(id) ==> {
                let track = final(self).map_points@[id].0;
                &&& id == old(self).next_mp_id
                &&& final(self).next_mp_id == id + 1
                &&& final(self).map_points@ == old(self).map_points@.insert(id, final(self).map_points@[id])
                &&& final(self).map_points@[id].1 == data
                &&& track.observations@ == map![kf1_id => feat1_idx].insert(kf2_id, feat2_idx)
                &&& track.first_keyframe == kf1_id
                &&& track.matched_count == 1
                &&& track.visible_count == 1
                &&& !track.bad
                &&& Some(track.descriptor) == old(self).keyframes@[kf1_id].0.descriptors@[feat1_idx as int]
                &&& final(self).keyframes@.dom() == old(self).keyframes@.dom()
                &&& forall|k: KeyFrameId| #[trigger] old(self).keyframes@.contains_key(k) ==> {
                    &&& final(self).keyframes@[k].1 == old(self).keyframes@[k].1
                    &&& same_but_slots(final(self).keyframes@[k].0, old(self).keyframes@[k].0)
                    &&& final(self).keyframes@[k].0.map_points@ == linked_slots(
                        old(self).keyframes@[k].0.map_points@,
                        k,
                        kf1_id,
                        feat1_idx,
                        kf2_id,
                        feat2_idx,
                        id,
                    )
                }
            },
            final(self).next_kf_id == old(self).next_kf_id,
    {
        let desc: Option<OrbDescriptor> = match self.keyframes.get(&kf1_id) {
            Some(entry) => entry.0.get_descriptor(feat1_idx),
            None => None,
        };
        match desc {
            None => None,
            Some(d) => {
                let mut track = MapPointTrack::new(kf1_id, feat1_idx, d);
                track.add_observation(kf2_id, feat2_idx);
                proof {
                    assert(track.observations@ =~= map![kf1_id => feat1_idx].insert(kf2_id, feat2_idx));
                }
                let mp_id = self.add_map_point(track, data);
                let ghost added = self.keyframes@;
                self.link_feature(kf1_id, feat1_idx, mp_id);
                self.link_feature(kf2_id, feat2_idx, mp_id);
                proof {
                    assert(self.map_points@ =~= old(self).map_points@.insert(mp_id, self.map_points@[mp_id]));
                    if slots_observed(old(self).keyframes@, old(self).map_points@) && !old(self).map_points@.contains_key(
                        mp_id,
                    ) {
                        lemma_creation_keeps_slots_observed(
                            old(self).keyframes@,
                            old(self).map_points@,
                            self.keyframes@,
                            self.map_points@,
                            mp_id,
                            kf1_id,
                            feat1_idx,
                            kf2_id,
                            feat2_idx,
                        );
                    }
                }
                Some(mp_id)
            },
        }
    }

    /// Each map point listed in `ids` forgets its observation by keyframe `kf_id`.
    fn forget_observer(&mut self, ids: &Vec<MapPointId>, kf_id: KeyFrameId)
        ensures
            final(self).map_points@.dom() == old(self).map_points@.dom(),
            forall|p: MapPointId| #[trigger] old(self).map_points@.contains_key(p) ==> {
                &&& final(self).map_points@[p].1 == old(self).map_points@[p].1
                &&& same_but_observations(final(self).map_points@[p].0, old(self).map_points@[p].0)
                &&& final(self).map_points@[p].0.observations@ == (if ids@.contains(p) {
                    old(self).map_points@[p].0.observations@.remove(kf_id)
                } else {
                    old(self).map_points@[p].0.observations@
                })
            },
            final(self).keyframes@ == old(self).keyframes@,
            final(self).next_kf_id == old(self).next_kf_id,
            final(self).next_mp_id == old(self).next_mp_id,
    {
        let mut i: usize = 0;
        while i < ids.len()
            invariant
                0 <= i <= ids@.len(),
                self.map_points@.dom() == old(self).map_points@.dom(),
                forall|p: MapPointId| #[trigger] old(self).map_points@.contains_key(p) ==> {
                    &&& self.map_points@[p].1 == old(self).map_points@[p].1
                    &&& same_but_observations(self.map_points@[p].0, old(self).map_points@[p].0)
                    &&& self.map_points@[p].0.observations@ == (if ids@.take(i as int).contains(p) {
                        old(self).map_points@[p].0.observations@.remove(kf_id)
                    } else {
                        old(self).map_points@[p].0.observations@
                    })
                },
                self.keyframes@ == old(self).keyframes@,
                self.next_kf_id == old(self).next_kf_id,
                self.next_mp_id == old(self).next_mp_id,
            decreases ids@.len() - i,
        {
            let p = ids[i];
            match self.map_points.remove(&p) {
                Some(e) => {
                    let (mut track, data) = e;
                    track.remove_observation(kf_id);
                    self.map_points.insert(p, (track, data));
                },
                None => {},
            }
            proof {
                assert(ids@.take(i + 1) =~= ids@.take(i as int).push(p));
                assert forall|p2: MapPointId| #[trigger] old(self).map_points@.contains_key(p2) implies
                    ids@.take(i + 1).contains(p2) == (ids@.take(i as int).contains(p2) || p2 == p) by {
                    if ids@.take(i + 1).contains(p2) && p2 != p {
                        let j = choose|j: int| 0 <= j < i + 1 && #[trigger] ids@.take(i + 1)[j] == p2;
                        assert(ids@.take(i as int)[j] == p2);
                    }
                    if ids@.take(i as int).contains(p2) {
                        let j = choose|j: int| 0 <= j < i && #[trigger] ids@.take(i as int)[j] == p2;
                        assert(ids@.take(i + 1)[j] == p2);
                    }
                    if p2 == p {
                        assert(ids@.take(i + 1)[i as int] == p2);
                    }
                }
                assert forall|p2: MapPointId| #[trigger] old(self).map_points@.contains_key(p2) && p2 == p implies
                    self.map_points@[p2].0.observations@ == old(self).map_points@[p2].0.observations@.remove(kf_id) by {
                    assert(old(self).map_points@[p2].0.observations@.remove(kf_id).remove(kf_id)
                        =~= old(self).map_points@[p2].0.observations@.remove(kf_id));
                }
                assert(self.map_points@.dom() =~= old(self).map_points@.dom());
            }
            i = i + 1;
        }
        proof {
            assert(ids@.take(ids@.len() as int) =~= ids@);
        }
    }

    /// Each keyframe listed in `others` forgets its covisibility with keyframe `gone`.
    fn forget_covisible(&mut self, others: &Vec<KeyFrameId>, gone: KeyFrameId)
        ensures
            final(self).keyframes@.dom() == old(self).keyframes@.dom(),
            forall|k: KeyFrameId| #[trigger] old(self).keyframes@.contains_key(k) ==> {
                &&& final(self).keyframes@[k].1 == old(self).keyframes@[k].1
                &&& same_features(final(self).keyframes@[k].0, old(self).keyframes@[k].0)
                &&& final(self).keyframes@[k].0.parent == old(self).keyframes@[k].0.parent
                &&& final(self).keyframes@[k].0.children@ == old(self).keyframes@[k].0.children@
                &&& final(self).keyframes@[k].0.covisible@ == (if others@.contains(k) {
                    old(self).keyframes@[k].0.covisible@.remove(gone)
                } else {
                    old(self).keyframes@[k].0.covisible@
                })
            },
            final(self).map_points@ == old(self).map_points@,
            final(self).next_kf_id == old(self).next_kf_id,
            final(self).next_mp_id == old(self).next_mp_id,
    {
        let mut i: usize = 0;
        while i < others.len()
            invariant
                0 <= i <= others@.len(),
                self.keyframes@.dom() == old(self).keyframes@.dom(),
                forall|k: KeyFrameId| #[trigger] old(self).keyframes@.contains_key(k) ==> {
                    &&& self.keyframes@[k].1 == old(self).keyframes@[k].1
                    &&& same_features(self.keyframes@[k].0, old(self).keyframes@[k].0)
                    &&& self.keyframes@[k].0.parent == old(self).keyframes@[k].0.parent
                    &&& self.keyframes@[k].0.children@ == old(self).keyframes@[k].0.children@
                    &&& self.keyframes@[k].0.covisible@ == (if others@.take(i as int).contains(k) {
                        old(self).keyframes@[k].0.covisible@.remove(gone)
                    } else {
                        old(self).keyframes@[k].0.covisible@
                    })
                },
                self.map_points@ == old(self).map_points@,
                self.next_kf_id == old(self).next_kf_id,
                self.next_mp_id == old(self).next_mp_id,
            decreases others@.len() - i,
        {
            let o = others[i];
            match self.keyframes.remove(&o) {
                Some(e) => {
                    let (mut links, data) = e;
                    links.covisible.remove(&gone);
                    self.keyframes.insert(o, (links, data));
                },
                None => {},
            }
            proof {
                assert(others@.take(i + 1) =~= others@.take(i as int).push(o));
                assert forall|k2: KeyFrameId| #[trigger] old(self).keyframes@.contains_key(k2) implies
                    others@.take(i + 1).contains(k2) == (others@.take(i as int).contains(k2) || k2 == o) by {
                    if others@.take(i + 1).contains(k2) && k2 != o {
                        let j = choose|j: int| 0 <= j < i + 1 && #[trigger] others@.take(i + 1)[j] == k2;
                        assert(others@.take(i as int)[j] == k2);
                    }
                    if others@.take(i as int).contains(k2) {
                        let j = choose|j: int| 0 <= j < i && #[trigger] others@.take(i as int)[j] == k2;
                        assert(others@.take(i + 1)[j] == k2);
                    }
                    if k2 == o {
                        assert(others@.take(i + 1)[i as int] == k2);
                    }
                }
                assert forall|k2: KeyFrameId| #[trigger] old(self).keyframes@.contains_key(k2) && k2 == o implies
                    self.keyframes@[k2].0.covisible@ == old(self).keyframes@[k2].0.covisible@.remove(gone) by {
                    assert(old(self).keyframes@[k2].0.covisible@.remove(gone).remove(gone)
                        =~= old(self).keyframes@[k2].0.covisible@.remove(gone));
                }
                assert(self.keyframes@.dom() =~= old(self).keyframes@.dom());
            }
            i = i + 1;
        }
        proof {
            assert(others@.take(others@.len() as int) =~= others@);
        }
    }

    /// The children of keyframe `gone` pass to `parent`: `parent` drops
    /// `gone` from its children and adopts each of them, and each of them
    /// that exists takes `parent` as its parent.
    fn pass_children(&mut self, gone: KeyFrameId, parent: KeyFrameId, children: &Vec<KeyFrameId>)
        ensures
            final(self).keyframes@.dom() == old(self).keyframes@.dom(),
            forall|k: KeyFrameId| #[trigger] old(self).keyframes@.contains_key(k) ==> {
                &&& final(self).keyframes@[k].1 == old(self).keyframes@[k].1
                &&& same_features(final(self).keyframes@[k].0, old(self).keyframes@[k].0)
                &&& final(self).keyframes@[k].0.covisible@ == old(self).keyframes@[k].0.covisible@
                &&& final(self).keyframes@[k].0.parent == (if children@.contains(k) {
                    Some(parent)
                } else {
                    old(self).keyframes@[k].0.parent
                })
                &&& final(self).keyframes@[k].0.children@ == (if k == parent {
                    with_children(without(old(self).keyframes@[k].0.children@, gone), children@)
                } else {
                    old(self).keyframes@[k].0.children@
                })
            },
            final(self).map_points@ == old(self).map_points@,
            final(self).next_kf_id == old(self).next_kf_id,
            final(self).next_mp_id == old(self).next_mp_id,
    {
        match self.keyframes.remove(&parent) {
            Some(e) => {
                let (mut links, data) = e;
                links.remove_child(gone);
                self.keyframes.insert(parent, (links, data));
            },
            None => {},
        }
        proof {
            assert(self.keyframes@.dom() =~= old(self).keyframes@.dom());
        }
        let mut i: usize = 0;
        while i < children.len()
            invariant
                0 <= i <= children@.len(),
                self.keyframes@.dom() == old(self).keyframes@.dom(),
                forall|k: KeyFrameId| #[trigger] old(self).keyframes@.contains_key(k) ==> {
                    &&& self.keyframes@[k].1 == old(self).keyframes@[k].1
                    &&& same_features(self.keyframes@[k].0, old(self).keyframes@[k].0)
                    &&& self.keyframes@[k].0.covisible@ == old(self).keyframes@[k].0.covisible@
                    &&& self.keyframes@[k].0.parent == (if children@.take(i as int).contains(k) {
                        Some(parent)
                    } else {
                        old(self).keyframes@[k].0.parent
                    })
                    &&& self.keyframes@[k].0.children@ == (if k == parent {
                        with_children(without(old(self).keyframes@[k].0.children@, gone), children@.take(i as int))
                    } else {
                        old(self).keyframes@[k].0.children@
                    })
                },
                self.map_points@ == old(self).map_points@,
                self.next_kf_id == old(self).next_kf_id,
                self.next_mp_id == old(self).next_mp_id,
            decreases children@.len() - i,
        {
            let c = children[i];
            match self.keyframes.remove(&c) {
                Some(e) => {
                    let (mut links, data) = e;
                    links.set_parent(parent);
                    self.keyframes.insert(c, (links, data));
                },
                None => {},
            }
            match self.keyframes.remove(&parent) {
                Some(e) => {
                    let (mut links, data) = e;
                    links.add_child(c);
                    self.keyframes.insert(parent, (links, data));
                },
                None => {},
            }
            proof {
                let t = children@.take(i + 1);
                assert(t =~= children@.take(i as int).push(c));
                assert(t.drop_last() =~= children@.take(i as int));
                assert forall|k2: KeyFrameId| #[trigger] old(self).keyframes@.contains_key(k2) implies
                    t.contains(k2) == (children@.take(i as int).contains(k2) || k2 == c) by {
                    if t.contains(k2) && k2 != c {
                        let j = choose|j: int| 0 <= j < i + 1 && #[trigger] t[j] == k2;
                        assert(children@.take(i as int)[j] == k2);
                    }
                    if children@.take(i as int).contains(k2) {
                        let j = choose|j: int| 0 <= j < i && #[trigger] children@.take(i as int)[j] == k2;
                        assert(t[j] == k2);
                    }
                    if k2 == c {
                        assert(t[i as int] == k2);
                    }
                }
                assert(self.keyframes@.dom() =~= old(self).keyframes@.dom());
            }
            i = i + 1;
        }
        proof {
            assert(children@.take(children@.len() as int) =~= children@);
        }
    }

    /// Remove a keyframe: the map points it observed forget it, its
    /// covisible keyframes forget it, and its children pass to its parent.
    pub fn remove_keyframe(&mut self, id: KeyFrameId)
        ensures
            slots_observed(old(self).keyframes@, old(self).map_points@) ==> slots_observed(
                final(self).keyframes@,
                final(self).map_points@,
            ),
            old(self).keyframes@.contains_key(id) && observers_linked(old(self).keyframes@, old(self).map_points@)
                ==> forall|p: MapPointId| #[trigger] final(self).map_points@.contains_key(p)
                ==> !final(self).map_points@[p].0.observations@.contains_key(id),
            old(self).keyframes@.contains_key(id) && covisibility_mutual(old(self).keyframes@) ==> forall|k: KeyFrameId|
                #[trigger] final(self).keyframes@.contains_key(k) ==> !final(self).keyframes@[k].0.covisible@.contains_key(id),
            !old(self).keyframes@.contains_key(id) ==> {
                &&& final(self).keyframes@ == old(self).keyframes@
                &&& final(self).map_points@ == old(self).map_points@
            },
            final(self).keyframes@.dom() == old(self).keyframes@.dom().remove(id),
            final(self).map_points@.dom() == old(self).map_points@.dom(),
            old(self).keyframes@.contains_key(id) ==> {
                let kf = old(self).keyframes@[id].0;
                &&& forall|p: MapPointId| #[trigger] old(self).map_points@.contains_key(p) ==> {
                    &&& final(self).map_points@[p].1 == old(self).map_points@[p].1
                    &&& same_but_observations(final(self).map_points@[p].0, old(self).map_points@[p].0)
                    &&& final(self).map_points@[p].0.observations@ == (if somes(kf.map_points@).contains(p) {
                        old(self).map_points@[p].0.observations@.remove(id)
                    } else {
                        old(self).map_points@[p].0.observations@
                    })
                }
                &&& forall|k: KeyFrameId| #[trigger] final(self).keyframes@.contains_key(k) ==> {
                    &&& final(self).keyframes@[k].1 == old(self).keyframes@[k].1
                    &&& relinked_after_removal(final(self).keyframes@[k].0, old(self).keyframes@[k].0, k, id, kf)
                }
            },
            final(self).next_kf_id == old(self).next_kf_id,
            final(self).next_mp_id == old(self).next_mp_id,
    {
        match self.keyframes.remove(&id) {
            None => {
                proof {
                    assert(self.keyframes@.dom() =~= old(self).keyframes@.dom().remove(id));
                }
            },
            Some(entry) => {
                let kf = entry.0;
                let ghost removed = self.keyframes@;
                let points = kf.get_map_points();
                self.forget_observer(&points, id);
                let others = keys_of(&kf.covisible);
                self.forget_covisible(&others, id);
                let ghost unlinked = self.keyframes@;
                match kf.parent {
                    Some(parent) => {
                        self.pass_children(id, parent, &kf.children);
                    },
                    None => {},
                }
                proof {
                    assert forall|k: KeyFrameId| #[trigger] self.keyframes@.contains_key(k) implies {
                        &&& self.keyframes@[k].1 == old(self).keyframes@[k].1
                        &&& relinked_after_removal(self.keyframes@[k].0, old(self).keyframes@[k].0, k, id, kf)
                    } by {
                        assert(removed.contains_key(k));
                        assert(others@.contains(k) == kf.covisible@.contains_key(k)) by {
                            assert(others@.to_set().contains(k) == kf.covisible@.dom().contains(k));
                        }
                        assert(unlinked.contains_key(k));
                    }
                    lemma_keyframe_removal_unlinks(
                        old(self).keyframes@,
                        old(self).map_points@,
                        self.keyframes@,
                        self.map_points@,
                        id,
                    );
                }
            },
        }
    }

    /// For each other keyframe, the number of the map points in `ids` that it observes.
    fn count_shared(&self, ids: &Vec<MapPointId>, kf_id: KeyFrameId) -> (counts: HashMap<KeyFrameId, u32>)
        requires
            ids@.len() <= u32::MAX,
        ensures
            counts@ == covisibility(self.map_points@, ids@, kf_id),
    {
        let ghost points = self.map_points@;
        let mut counts: HashMap<KeyFrameId, u32> = HashMap::new();
        proof {
            assert(counts@ =~= tally(points, ids@, 0, seq![], 0, kf_id));
        }
        let mut j: usize = 0;
        while j < ids.len()
            invariant
                0 <= j <= ids@.len(),
                ids@.len() <= u32::MAX,
                points == self.map_points@,
                counts@ == tally(points, ids@, j as int, seq![], 0, kf_id),
            decreases ids@.len() - j,
        {
            let p = ids[j];
            let ghost tj = ids@.take(j as int);
            proof {
                assert(ids@.take(j + 1).drop_last() =~= tj);
                assert(ids@.take(j + 1).last() == p);
            }
            match self.map_points.get(&p) {
                Some(entry) => {
                    let obs = keys_of(&entry.0.observations);
                    proof {
                        assert(counts@ =~= tally(points, ids@, j as int, obs@, 0, kf_id));
                    }
                    let mut i: usize = 0;
                    while i < obs.len()
                        invariant
                            0 <= i <= obs@.len(),
                            0 <= j < ids@.len(),
                            ids@.len() <= u32::MAX,
                            obs@.no_duplicates(),
                            counts@ == tally(points, ids@, j as int, obs@, i as int, kf_id),
                        decreases obs@.len() - i,
                    {
                        let o = obs[i];
                        proof {
                            assert(obs@.take(i + 1) =~= obs@.take(i as int).push(o));
                            assert(!obs@.take(i as int).contains(o)) by {
                                if obs@.take(i as int).contains(o) {
                                    let m = choose|m: int| 0 <= m < i && #[trigger] obs@.take(i as int)[m] == o;
                                    assert(obs@[m] == obs@[i as int]);
                                }
                            }
                            assert forall|o2: KeyFrameId| o2 != o implies obs@.take(i + 1).contains(o2)
                                == obs@.take(i as int).contains(o2) by {
                                if obs@.take(i + 1).contains(o2) {
                                    let m = choose|m: int| 0 <= m < i + 1 && #[trigger] obs@.take(i + 1)[m] == o2;
                                    assert(obs@.take(i as int)[m] == o2);
                                }
                                if obs@.take(i as int).contains(o2) {
                                    let m = choose|m: int| 0 <= m < i && #[trigger] obs@.take(i as int)[m] == o2;
                                    assert(obs@.take(i + 1)[m] == o2);
                                }
                            }
                            assert(obs@.take(i + 1)[i as int] == o);
                        }
                        if o != kf_id {
                            let c: u32 = match counts.get(&o) {
                                Some(c) => *c,
                                None => 0,
                            };
                            proof {
                                lemma_shared_count_bound(points, ids@.take(j as int), o);
                            }
                            counts.insert(o, c + 1);
                            proof {
                                assert(counts@ =~= tally(points, ids@, j as int, obs@, i + 1, kf_id));
                            }
                        } else {
                            proof {
                                assert(counts@ =~= tally(points, ids@, j as int, obs@, i + 1, kf_id));
                            }
                        }
                        i = i + 1;
                    }
                    proof {
                        assert(obs@.take(obs@.len() as int) =~= obs@);
                        assert forall|o: KeyFrameId| obs@.contains(o) == entry.0.observations@.contains_key(o) by {
                            assert(obs@.to_set().contains(o) == entry.0.observations@.dom().contains(o));
                        }
                        assert(counts@ =~= tally(points, ids@, j + 1, seq![], 0, kf_id));
                    }
                },
                None => {
                    proof {
                        assert(counts@ =~= tally(points, ids@, j + 1, seq![], 0, kf_id));
                    }
                },
            }
            j = j + 1;
        }
        proof {
            assert(ids@.take(ids@.len() as int) =~= ids@);
            assert(counts@ =~= covisibility(points, ids@, kf_id));
        }
        counts
    }

    /// Recount the map points keyframe `kf_id` shares with every other
    /// keyframe: its covisible keyframes become exactly those sharing at
    /// least one, and each of those records the new count for `kf_id`.
    pub fn update_covisibility(&mut self, kf_id: KeyFrameId)
        requires
            old(self).keyframes@.contains_key(kf_id) ==> somes(old(self).keyframes@[kf_id].0.map_points@).len()
                <= u32::MAX,
        ensures
            old(self).keyframes@.contains_key(kf_id) ==> forall|k: KeyFrameId|
                #![trigger final(self).keyframes@[kf_id].0.covisible@.contains_key(k), final(self).keyframes@.contains_key(k)]
                final(self).keyframes@.contains_key(k) && final(self).keyframes@[kf_id].0.covisible@.contains_key(k) ==> {
                    &&& final(self).keyframes@[k].0.covisible@.contains_key(kf_id)
                    &&& final(self).keyframes@[k].0.covisible@[kf_id] == final(self).keyframes@[kf_id].0.covisible@[k]
                },
            !old(self).keyframes@.contains_key(kf_id) ==> final(self).keyframes@ == old(self).keyframes@,
            final(self).map_points@ == old(self).map_points@,
            final(self).keyframes@.dom() == old(self).keyframes@.dom(),
            old(self).keyframes@.contains_key(kf_id) ==> {
                let c = covisibility(old(self).map_points@, somes(old(self).keyframes@[kf_id].0.map_points@), kf_id);
                forall|k: KeyFrameId| #[trigger] old(self).keyframes@.contains_key(k) ==> {
                    &&& final(self).keyframes@[k].1 == old(self).keyframes@[k].1
                    &&& same_features(final(self).keyframes@[k].0, old(self).keyframes@[k].0)
                    &&& final(self).keyframes@[k].0.parent == old(self).keyframes@[k].0.parent
                    &&& final(self).keyframes@[k].0.children@ == old(self).keyframes@[k].0.children@
                    &&& final(self).keyframes@[k].0.covisible@ == (if k == kf_id {
                        c
                    } else if c.contains_key(k) {
                        old(self).keyframes@[k].0.covisible@.insert(kf_id, c[k])
                    } else {
                        old(self).keyframes@[k].0.covisible@
                    })
                }
            },
            final(self).next_kf_id == old(self).next_kf_id,
            final(self).next_mp_id == old(self).next_mp_id,
    {
        if !self.keyframes.contains_key(&kf_id) {
            return;
        }
        let ids = self.keyframes.get(&kf_id).unwrap().0.get_map_points();
        let counts = self.count_shared(&ids, kf_id);
        let ghost c = counts@;
        let others = keys_of(&counts);
        let mut i: usize = 0;
        while i < others.len()
            invariant
                0 <= i <= others@.len(),
                c == counts@,
                c == covisibility(old(self).map_points@, ids@, kf_id),
                ids@.len() <= u32::MAX,
                others@.to_set() == c.dom(),
                old(self).keyframes@.contains_key(kf_id),
                self.keyframes@.dom() == old(self).keyframes@.dom(),
                forall|k: KeyFrameId| #[trigger] old(self).keyframes@.contains_key(k) ==> {
                    &&& self.keyframes@[k].1 == old(self).keyframes@[k].1
                    &&& same_features(self.keyframes@[k].0, old(self).keyframes@[k].0)
                    &&& self.keyframes@[k].0.parent == old(self).keyframes@[k].0.parent
                    &&& self.keyframes@[k].0.children@ == old(self).keyframes@[k].0.children@
                    &&& self.keyframes@[k].0.covisible@ == (if others@.take(i as int).contains(k) {
                        old(self).keyframes@[k].0.covisible@.insert(kf_id, c[k])
                    } else {
                        old(self).keyframes@[k].0.covisible@
                    })
                },
                self.map_points@ == old(self).map_points@,
                self.next_kf_id == old(self).next_kf_id,
                self.next_mp_id == old(self).next_mp_id,
            decreases others@.len() - i,
        {
            let o = others[i];
            proof {
                assert(others@.to_set().contains(o));
            }
            let n: u32 = *counts.get(&o).unwrap();
            proof {
                lemma_shared_count_bound(old(self).map_points@, ids@, o);
                assert(n == c[o] && n > 0);
            }
            match self.keyframes.remove(&o) {
                Some(e) => {
                    let (mut links, data) = e;
                    links.update_covisibility(kf_id, n);
                    self.keyframes.insert(o, (links, data));
                },
                None => {},
            }
            proof {
                let t = others@.take(i + 1);
                assert(t =~= others@.take(i as int).push(o));
                assert forall|k2: KeyFrameId| #[trigger] old(self).keyframes@.contains_key(k2) implies
                    t.contains(k2) == (others@.take(i as int).contains(k2) || k2 == o) by {
                    if t.contains(k2) && k2 != o {
                        let m = choose|m: int| 0 <= m < i + 1 && #[trigger] t[m] == k2;
                        assert(others@.take(i as int)[m] == k2);
                    }
                    if others@.take(i as int).contains(k2) {
                        let m = choose|m: int| 0 <= m < i && #[trigger] others@.take(i as int)[m] == k2;
                        assert(t[m] == k2);
                    }
                    if k2 == o {
                        assert(t[i as int] == k2);
                    }
                }
                assert forall|k2: KeyFrameId| #[trigger] old(self).keyframes@.contains_key(k2) && k2 == o
                    && others@.take(i as int).contains(k2) implies old(self).keyframes@[k2].0.covisible@.insert(kf_id, c[k2]).insert(kf_id, n)
                    == old(self).keyframes@[k2].0.covisible@.insert(kf_id, c[k2]) by {
                    assert(old(self).keyframes@[k2].0.covisible@.insert(kf_id, c[k2]).insert(kf_id, n)
                        =~= old(self).keyframes@[k2].0.covisible@.insert(kf_id, c[k2]));
                }
                assert(self.keyframes@.dom() =~= old(self).keyframes@.dom());
            }
            i = i + 1;
        }
        let ghost spread = self.keyframes@;
        let (mut links, data) = self.keyframes.remove(&kf_id).unwrap();
        links.covisible = counts;
        self.keyframes.insert(kf_id, (links, data));
        proof {
            assert(others@.take(others@.len() as int) =~= others@);
            assert(ids@ == somes(old(self).keyframes@[kf_id].0.map_points@));
            assert(!c.contains_key(kf_id));
            assert forall|k: KeyFrameId| #[trigger] old(self).keyframes@.contains_key(k) implies others@.contains(k)
                == c.contains_key(k) by {
                assert(others@.to_set().contains(k) == c.dom().contains(k));
            }
            assert(self.keyframes@.dom() =~= old(self).keyframes@.dom());
        }
    }

    /// Remove a map point and every keyframe feature's reference to it.
    pub fn remove_map_point(&mut self, id: MapPointId)
        ensures
            slots_observed(old(self).keyframes@, old(self).map_points@) ==> {
                &&& slots_observed(final(self).keyframes@, final(self).map_points@)
                &&& forall|k: KeyFrameId| #[trigger] final(self).keyframes@.contains_key(k)
                    ==> !final(self).keyframes@[k].0.map_points@.contains(Some(id))
            },
            !old(self).map_points@.contains_key(id) ==> final(self).keyframes@ == old(self).keyframes@,
            final(self).map_points@ == old(self).map_points@.remove(id),
            final(self).keyframes@.dom() == old(self).keyframes@.dom(),
            old(self).map_points@.contains_key(id) ==> forall|k: KeyFrameId| #[trigger]
                old(self).keyframes@.contains_key(k) ==> {
                &&& final(self).keyframes@[k].1 == old(self).keyframes@[k].1
                &&& same_but_slots(final(self).keyframes@[k].0, old(self).keyframes@[k].0)
                &&& final(self).keyframes@[k].0.map_points@ == (if old(self).map_points@[id].0.observations@.contains_key(k) {
                    without_point(old(self).keyframes@[k].0.map_points@, id)
                } else {
                    old(self).keyframes@[k].0.map_points@
                })
            },
            final(self).next_kf_id == old(self).next_kf_id,
            final(self).next_mp_id == old(self).next_mp_id,
    {
        match self.map_points.remove(&id) {
            None => {
                proof {
                    assert(self.map_points@ =~= old(self).map_points@.remove(id));
                    if slots_observed(old(self).keyframes@, old(self).map_points@) {
                        lemma_point_removal_unlinks(
                            old(self).keyframes@,
                            old(self).map_points@,
                            self.keyframes@,
                            self.map_points@,
                            id,
                        );
                    }
                }
            },
            Some(entry) => {
                let observers = keys_of(&entry.0.observations);
                let ghost obs = entry.0.observations@;
                let mut i: usize = 0;
                while i < observers.len()
                    invariant
                        0 <= i <= observers@.len(),
                        observers@.to_set() == obs.dom(),
                        observers@.no_duplicates(),
                        obs == old(self).map_points@[id].0.observations@,
                        old(self).map_points@.contains_key(id),
                        self.map_points@ == old(self).map_points@.remove(id),
                        self.keyframes@.dom() == old(self).keyframes@.dom(),
                        forall|k: KeyFrameId| #[trigger] old(self).keyframes@.contains_key(k) ==> {
                            &&& self.keyframes@[k].1 == old(self).keyframes@[k].1
                            &&& same_but_slots(self.keyframes@[k].0, old(self).keyframes@[k].0)
                            &&& self.keyframes@[k].0.map_points@ == (if observers@.take(i as int).contains(k) {
                                without_point(old(self).keyframes@[k].0.map_points@, id)
                            } else {
                                old(self).keyframes@[k].0.map_points@
                            })
                        },
                        self.next_kf_id == old(self).next_kf_id,
                        self.next_mp_id == old(self).next_mp_id,
                    decreases observers@.len() - i,
                {
                    let k = observers[i];
                    let ghost before = self.keyframes@;
                    proof {
                        assert(!observers@.take(i as int).contains(k)) by {
                            if observers@.take(i as int).contains(k) {
                                let j = choose|j: int| 0 <= j < i && #[trigger] observers@.take(i as int)[j] == k;
                                assert(observers@[j] == observers@[i as int]);
                            }
                        }
                    }
                    match self.keyframes.remove(&k) {
                        Some(e) => {
                            let (mut links, data) = e;
                            links.remove_map_point(id);
                            self.keyframes.insert(k, (links, data));
                        },
                        None => {},
                    }
                    proof {
                        assert(observers@.take(i + 1) =~= observers@.take(i as int).push(k));
                        assert forall|k2: KeyFrameId| #[trigger] old(self).keyframes@.contains_key(k2) implies
                            observers@.take(i + 1).contains(k2) == (observers@.take(i as int).contains(k2) || k2 == k) by {
                            if observers@.take(i + 1).contains(k2) && k2 != k {
                                let j = choose|j: int| 0 <= j < i + 1 && #[trigger] observers@.take(i + 1)[j] == k2;
                                assert(observers@.take(i as int)[j] == k2);
                            }
                            if observers@.take(i as int).contains(k2) {
                                let j = choose|j: int| 0 <= j < i && #[trigger] observers@.take(i as int)[j] == k2;
                                assert(observers@.take(i + 1)[j] == k2);
                            }
                            if k2 == k {
                                assert(observers@.take(i + 1)[i as int] == k2);
                            }
                        }
                        assert(self.keyframes@.dom() =~= old(self).keyframes@.dom());
                    }
                    i = i + 1;
                }
                proof {
                    assert(observers@.take(observers@.len() as int) =~= observers@);
                    assert forall|k: KeyFrameId| #[trigger] old(self).keyframes@.contains_key(k) implies
                        observers@.contains(k) == obs.contains_key(k) by {
                        assert(observers@.to_set().contains(k) == obs.dom().contains(k));
                    }
                    if slots_observed(old(self).keyframes@, old(self).map_points@) {
                        lemma_point_removal_unlinks(
                            old(self).keyframes@,
                            old(self).map_points@,
                            self.keyframes@,
                            self.map_points@,
                            id,
                        );
                    }
                }
            },
        }
    }
}

} // verus!
