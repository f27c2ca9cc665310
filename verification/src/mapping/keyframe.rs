//! Bookkeeping of a keyframe: the map point and descriptor of each feature,
//! the covisibility counts with other keyframes, and the spanning tree links.

use vstd::prelude::*;
use std::collections::HashMap;
use vstd::std_specs::iter::IteratorSpec;
use crate::features::descriptor::OrbDescriptor;
use crate::loop_closure::inverted_index::{filter_out, without};
use crate::mapping::map_point::{KeyFrameId, MapPointId};

verus! {

broadcast use vstd::std_specs::hash::group_hash_axioms;

/// The values held by the `Some` entries of a sequence, in order.
pub open spec fn somes<T>(s: Seq<Option<T>>) -> Seq<T>
    decreases s.len(),
{
    if s.len() == 0 {
        seq![]
    } else {
        let r = somes(s.drop_last());
        match s.last() {
            Some(x) => r.push(x),
            None => r,
        }
    }
}

/// The slots with every reference to map point `mp` cleared.
pub open spec fn without_point(slots: Seq<Option<MapPointId>>, mp: MapPointId) -> Seq<Option<MapPointId>> {
    Seq::new(slots.len(), |i: int| if slots[i] == Some(mp) { None } else { slots[i] })
}

/// The slots with slot `i` set to map point `mp`, when `i` is a slot.
pub open spec fn with_slot(slots: Seq<Option<MapPointId>>, i: int, mp: MapPointId) -> Seq<Option<MapPointId>> {
    if 0 <= i < slots.len() {
        slots.update(i, Some(mp))
    } else {
        slots
    }
}

/// The children with `c` appended, unless already present.
pub open spec fn with_child(children: Seq<KeyFrameId>, c: KeyFrameId) -> Seq<KeyFrameId> {
    if children.contains(c) {
        children
    } else {
        children.push(c)
    }
}

/// The children after adding each of `cs` in turn.
pub open spec fn with_children(children: Seq<KeyFrameId>, cs: Seq<KeyFrameId>) -> Seq<KeyFrameId>
    decreases cs.len(),
{
    if cs.len() == 0 {
        children
    } else {
        with_child(with_children(children, cs.drop_last()), cs.last())
    }
}

/// `r` lists each covisible keyframe once, with its count, largest count first.
pub open spec fn ranks_covisible(r: Seq<(KeyFrameId, u32)>, covis: Map<KeyFrameId, u32>) -> bool {
    &&& r.len() == covis.len()
    &&& forall|i: int| 0 <= i < r.len() ==> #[trigger] covis.contains_key(r[i].0) && covis[r[i].0] == r[i].1
    &&& forall|k: KeyFrameId| #[trigger] covis.contains_key(k) ==> exists|i: int| 0 <= i < r.len() && r[i].0 == k
    &&& forall|i: int, j: int| 0 <= i < j < r.len() ==> r[i].0 != r[j].0 && r[i].1 >= r[j].1
}

/// Each entry of `out` holds a covisible keyframe with its count.
pub open spec fn counts_match(out: Seq<(KeyFrameId, u32)>, covis: Map<KeyFrameId, u32>) -> bool {
    forall|a: int| 0 <= a < out.len() ==> #[trigger] covis.contains_key(out[a].0) && covis[out[a].0] == out[a].1
}

/// Each entry of `out` holds one of the first `i` keys.
pub open spec fn drawn_from(out: Seq<(KeyFrameId, u32)>, keys: Seq<KeyFrameId>, i: int) -> bool {
    forall|a: int| 0 <= a < out.len() ==> exists|b: int| 0 <= b < i && keys[b] == #[trigger] out[a].0
}

/// Each of the first `i` keys has an entry in `out`.
pub open spec fn covers(out: Seq<(KeyFrameId, u32)>, keys: Seq<KeyFrameId>, i: int) -> bool {
    forall|b: int| 0 <= b < i ==> exists|a: int| 0 <= a < out.len() && out[a].0 == #[trigger] keys[b]
}

/// The entries of `out` have distinct keyframes and come largest count first.
pub open spec fn distinct_descending(out: Seq<(KeyFrameId, u32)>) -> bool {
    forall|a: int, b: int| 0 <= a < b < out.len() ==> out[a].0 != out[b].0 && out[a].1 >= out[b].1
}

/// `out` lists the first `i` keys, each with its count, largest count first.
pub open spec fn ranked_prefix(out: Seq<(KeyFrameId, u32)>, keys: Seq<KeyFrameId>, i: int, covis: Map<KeyFrameId, u32>) -> bool {
    &&& out.len() == i
    &&& counts_match(out, covis)
    &&& drawn_from(out, keys, i)
    &&& covers(out, keys, i)
    &&& distinct_descending(out)
}

proof fn lemma_fresh_key(old_out: Seq<(KeyFrameId, u32)>, keys: Seq<KeyFrameId>, i: int)
    requires
        0 <= i < keys.len(),
        keys.no_duplicates(),
        drawn_from(old_out, keys, i),
    ensures
        forall|a: int| 0 <= a < old_out.len() ==> old_out[a].0 != keys[i],
{
    assert forall|a: int| 0 <= a < old_out.len() implies old_out[a].0 != keys[i] by {
        let b = choose|b: int| 0 <= b < i && keys[b] == #[trigger] old_out[a].0;
        assert(keys[b] != keys[i]);
    }
}

proof fn lemma_insert_counts(old_out: Seq<(KeyFrameId, u32)>, covis: Map<KeyFrameId, u32>, j: int, k: KeyFrameId)
    requires
        0 <= j <= old_out.len(),
        counts_match(old_out, covis),
        covis.contains_key(k),
    ensures
        counts_match(old_out.insert(j, (k, covis[k])), covis),
{
    let out = old_out.insert(j, (k, covis[k]));
    assert forall|a: int| 0 <= a < out.len() implies #[trigger] covis.contains_key(out[a].0) && covis[out[a].0]
        == out[a].1 by {
        if a < j {
            assert(out[a] == old_out[a]);
        } else if a > j {
            assert(out[a] == old_out[a - 1]);
        }
    }
}

proof fn lemma_insert_drawn(old_out: Seq<(KeyFrameId, u32)>, keys: Seq<KeyFrameId>, i: int, j: int, c: u32)
    requires
        0 <= i < keys.len(),
        0 <= j <= old_out.len(),
        drawn_from(old_out, keys, i),
    ensures
        drawn_from(old_out.insert(j, (keys[i], c)), keys, i + 1),
{
    let out = old_out.insert(j, (keys[i], c));
    assert forall|a: int| 0 <= a < out.len() implies exists|b: int| 0 <= b < i + 1 && keys[b] == #[trigger] out[a].0 by {
        if a < j {
            assert(out[a] == old_out[a]);
            let b = choose|b: int| 0 <= b < i && keys[b] == #[trigger] old_out[a].0;
            assert(keys[b] == out[a].0);
        } else if a == j {
            assert(keys[i] == out[a].0);
        } else {
            assert(out[a] == old_out[a - 1]);
            let b = choose|b: int| 0 <= b < i && keys[b] == #[trigger] old_out[a - 1].0;
            assert(keys[b] == out[a].0);
        }
    }
}

proof fn lemma_insert_covers(old_out: Seq<(KeyFrameId, u32)>, keys: Seq<KeyFrameId>, i: int, j: int, c: u32)
    requires
        0 <= i < keys.len(),
        0 <= j <= old_out.len(),
        covers(old_out, keys, i),
    ensures
        covers(old_out.insert(j, (keys[i], c)), keys, i + 1),
{
    let out = old_out.insert(j, (keys[i], c));
    assert forall|b: int| 0 <= b < i + 1 implies exists|a: int| 0 <= a < out.len() && out[a].0 == #[trigger] keys[b] by {
        if b == i {
            assert(out[j].0 == keys[b]);
        } else {
            let a = choose|a: int| 0 <= a < old_out.len() && old_out[a].0 == #[trigger] keys[b];
            if a < j {
                assert(out[a] == old_out[a]);
            } else {
                assert(out[a + 1] == old_out[a]);
            }
        }
    }
}

proof fn lemma_insert_descending(old_out: Seq<(KeyFrameId, u32)>, j: int, k: KeyFrameId, c: u32)
    requires
        0 <= j <= old_out.len(),
        distinct_descending(old_out),
        forall|a: int| 0 <= a < old_out.len() ==> old_out[a].0 != k,
        forall|a: int| 0 <= a < j ==> old_out[a].1 >= c,
        j < old_out.len() ==> old_out[j].1 < c,
    ensures
        distinct_descending(old_out.insert(j, (k, c))),
{
    let out = old_out.insert(j, (k, c));
    assert forall|a: int, b: int| 0 <= a < b < out.len() implies out[a].0 != out[b].0 && out[a].1 >= out[b].1 by {
        if b < j {
            assert(out[a] == old_out[a] && out[b] == old_out[b]);
        } else if b == j {
            assert(out[a] == old_out[a]);
        } else if a < j {
            assert(out[a] == old_out[a] && out[b] == old_out[b - 1]);
            assert(old_out[j].1 < c);
        } else if a == j {
            assert(out[b] == old_out[b - 1]);
            if b - 1 > j {
                assert(old_out[j].1 >= old_out[b - 1].1);
            }
        } else {
            assert(out[a] == old_out[a - 1] && out[b] == old_out[b - 1]);
        }
    }
}

proof fn lemma_ranked_insert(
    old_out: Seq<(KeyFrameId, u32)>,
    keys: Seq<KeyFrameId>,
    i: int,
    covis: Map<KeyFrameId, u32>,
    j: int,
)
    requires
        0 <= i < keys.len(),
        keys.no_duplicates(),
        covis.contains_key(keys[i]),
        ranked_prefix(old_out, keys, i, covis),
        0 <= j <= old_out.len(),
        forall|a: int| 0 <= a < j ==> old_out[a].1 >= covis[keys[i]],
        j < old_out.len() ==> old_out[j].1 < covis[keys[i]],
    ensures
        ranked_prefix(old_out.insert(j, (keys[i], covis[keys[i]])), keys, i + 1, covis),
{
    let c = covis[keys[i]];
    lemma_fresh_key(old_out, keys, i);
    lemma_insert_counts(old_out, covis, j, keys[i]);
    lemma_insert_drawn(old_out, keys, i, j, c);
    lemma_insert_covers(old_out, keys, i, j, c);
    lemma_insert_descending(old_out, j, keys[i], c);
}

proof fn lemma_ranked_complete(out: Seq<(KeyFrameId, u32)>, keys: Seq<KeyFrameId>, covis: Map<KeyFrameId, u32>)
    requires
        keys.to_set() == covis.dom(),
        keys.no_duplicates(),
        ranked_prefix(out, keys, keys.len() as int, covis),
    ensures
        ranks_covisible(out, covis),
{
    keys.unique_seq_to_set();
    assert forall|k: KeyFrameId| #[trigger] covis.contains_key(k) implies exists|a: int| 0 <= a < out.len() && out[a].0
        == k by {
        assert(keys.to_set().contains(k));
        let b = choose|b: int| 0 <= b < keys.len() && keys[b] == k;
        assert(keys[b] == k);
    }
}

/// The keys of a hash map, each once.
pub(crate) fn keys_of<V>(m: &HashMap<u64, V>) -> (r: Vec<u64>)
    ensures
        r@.to_set() == m@.dom(),
        r@.no_duplicates(),
        r@.len() == m@.len(),
{
    let mut r: Vec<u64> = Vec::new();
    let ghost ks = m.keys().remaining().unref();
    for k in it: m.keys()
        invariant
            r@ == it.seq().unref().take(it.index()),
            it.seq().unref() == ks,
    {
        r.push(*k);
        proof {
            assert(r@ =~= it.seq().unref().take(it.index() + 1));
        }
    }
    proof {
        assert(r@ =~= ks);
        r@.unique_seq_to_set();
    }
    r
}

/// Whether a vector holds a value.
pub(crate) fn vec_contains(v: &Vec<u64>, x: u64) -> (b: bool)
    ensures
        b == v@.contains(x),
{
    let mut i: usize = 0;
    while i < v.len()
        invariant
            0 <= i <= v@.len(),
            forall|j: int| 0 <= j < i ==> v@[j] != x,
        decreases v@.len() - i,
    {
        if v[i] == x {
            return true;
        }
        i = i + 1;
    }
    false
}

/// Links of a keyframe in the map.
#[derive(Debug, Clone)]
pub struct KeyFrameLinks {
    /// Map point of each feature (None if not yet triangulated)
    pub map_points: Vec<Option<MapPointId>>,
    /// Descriptor of each feature, if it has one
    pub descriptors: Vec<Option<OrbDescriptor>>,
    /// Covisible keyframes and the number of map points shared with each
    pub covisible: HashMap<KeyFrameId, u32>,
    /// Spanning tree parent
    pub parent: Option<KeyFrameId>,
    /// Spanning tree children
    pub children: Vec<KeyFrameId>,
    /// Marked for removal
    pub bad: bool,
}

impl KeyFrameLinks {
    /// Links of a new keyframe with the given feature descriptors: no map
    /// points yet, no covisible keyframes, no parent or children.
    pub fn new(descriptors: Vec<Option<OrbDescriptor>>) -> (k: Self)
        ensures
            k.descriptors@ == descriptors@,
            k.map_points@ == Seq::new(descriptors@.len(), |i: int| None::<MapPointId>),
            k.covisible@ == Map::<KeyFrameId, u32>::empty(),
            k.parent is None,
            k.children@ == Seq::<KeyFrameId>::empty(),
            !k.bad,
    {
        let mut map_points: Vec<Option<MapPointId>> = Vec::new();
        let mut i: usize = 0;
        while i < descriptors.len()
            invariant
                0 <= i <= descriptors@.len(),
                map_points@ == Seq::new(i as nat, |j: int| None::<MapPointId>),
            decreases descriptors@.len() - i,
        {
            map_points.push(None);
            proof {
                assert(map_points@ =~= Seq::new((i + 1) as nat, |j: int| None::<MapPointId>));
            }
            i = i + 1;
        }
        KeyFrameLinks {
            map_points,
            descriptors,
            covisible: HashMap::new(),
            parent: None,
            children: Vec::new(),
            bad: false,
        }
    }

    /// Number of features with an associated map point.
    pub fn num_mapped_features(&self) -> (n: usize)
        ensures
            n == somes(self.map_points@).len(),
    {
        self.get_map_points().len()
    }

    /// The map points of the features, in feature order.
    pub fn get_map_points(&self) -> (r: Vec<MapPointId>)
        ensures
            r@ == somes(self.map_points@),
    {
        let mut r: Vec<MapPointId> = Vec::new();
        let mut i: usize = 0;
        while i < self.map_points.len()
            invariant
                0 <= i <= self.map_points@.len(),
                r@ == somes(self.map_points@.take(i as int)),
            decreases self.map_points@.len() - i,
        {
            proof {
                assert(self.map_points@.take(i + 1).drop_last() =~= self.map_points@.take(i as int));
            }
            match self.map_points[i] {
                Some(mp) => r.push(mp),
                None => {},
            }
            i = i + 1;
        }
        proof {
            assert(self.map_points@.take(self.map_points@.len() as int) =~= self.map_points@);
        }
        r
    }

    /// Associate a feature with a map point; an index past the features is ignored.
    pub fn set_map_point(&mut self, feat_idx: usize, mp_id: MapPointId)
        ensures
            final(self).map_points@ == with_slot(old(self).map_points@, feat_idx as int, mp_id),
            final(self).descriptors@ == old(self).descriptors@,
            final(self).covisible@ == old(self).covisible@,
            final(self).parent == old(self).parent,
            final(self).children@ == old(self).children@,
            final(self).bad == old(self).bad,
    {
        if feat_idx < self.map_points.len() {
            self.map_points.set(feat_idx, Some(mp_id));
        }
    }

    /// Clear the map point of a feature; an index past the features is ignored.
    pub fn clear_map_point(&mut self, feat_idx: usize)
        ensures
            final(self).map_points@ == (if feat_idx < old(self).map_points@.len() {
                old(self).map_points@.update(feat_idx as int, None)
            } else {
                old(self).map_points@
            }),
            final(self).descriptors@ == old(self).descriptors@,
            final(self).covisible@ == old(self).covisible@,
            final(self).parent == old(self).parent,
            final(self).children@ == old(self).children@,
            final(self).bad == old(self).bad,
    {
        if feat_idx < self.map_points.len() {
            self.map_points.set(feat_idx, None);
        }
    }

    /// Clear every feature's reference to a map point.
    pub fn remove_map_point(&mut self, mp_id: MapPointId)
        ensures
            final(self).map_points@ == without_point(old(self).map_points@, mp_id),
            final(self).descriptors@ == old(self).descriptors@,
            final(self).covisible@ == old(self).covisible@,
            final(self).parent == old(self).parent,
            final(self).children@ == old(self).children@,
            final(self).bad == old(self).bad,
    {
        let mut i: usize = 0;
        while i < self.map_points.len()
            invariant
                0 <= i <= self.map_points@.len(),
                self.map_points@.len() == old(self).map_points@.len(),
                forall|j: int| 0 <= j < i ==> self.map_points@[j] == without_point(old(self).map_points@, mp_id)[j],
                forall|j: int| i <= j < self.map_points@.len() ==> self.map_points@[j] == old(self).map_points@[j],
                self.descriptors@ == old(self).descriptors@,
                self.covisible@ == old(self).covisible@,
                self.parent == old(self).parent,
                self.children@ == old(self).children@,
                self.bad == old(self).bad,
            decreases self.map_points@.len() - i,
        {
            if self.map_points[i] == Some(mp_id) {
                self.map_points.set(i, None);
            }
            i = i + 1;
        }
        proof {
            assert(self.map_points@ =~= without_point(old(self).map_points@, mp_id));
        }
    }

    /// The descriptor of a feature, if the feature exists and has one.
    pub fn get_descriptor(&self, idx: usize) -> (r: Option<OrbDescriptor>)
        ensures
            r == (if idx < self.descriptors@.len() { self.descriptors@[idx as int] } else { None }),
    {
        if idx < self.descriptors.len() {
            self.descriptors[idx]
        } else {
            None
        }
    }

    /// The descriptors of the features that have one, in feature order.
    pub fn get_descriptors(&self) -> (r: Vec<OrbDescriptor>)
        ensures
            r@ == somes(self.descriptors@),
    {
        let mut r: Vec<OrbDescriptor> = Vec::new();
        let mut i: usize = 0;
        while i < self.descriptors.len()
            invariant
                0 <= i <= self.descriptors@.len(),
                r@ == somes(self.descriptors@.take(i as int)),
            decreases self.descriptors@.len() - i,
        {
            proof {
                assert(self.descriptors@.take(i + 1).drop_last() =~= self.descriptors@.take(i as int));
            }
            match self.descriptors[i] {
                Some(d) => r.push(d),
                None => {},
            }
            i = i + 1;
        }
        proof {
            assert(self.descriptors@.take(self.descriptors@.len() as int) =~= self.descriptors@);
        }
        r
    }

    /// Record the number of map points shared with another keyframe.
    pub fn add_covisible(&mut self, kf_id: KeyFrameId, shared_points: u32)
        ensures
            final(self).covisible@ == old(self).covisible@.insert(kf_id, shared_points),
            final(self).map_points@ == old(self).map_points@,
            final(self).descriptors@ == old(self).descriptors@,
            final(self).parent == old(self).parent,
            final(self).children@ == old(self).children@,
            final(self).bad == old(self).bad,
    {
        self.covisible.insert(kf_id, shared_points);
    }

    /// Update the shared count with another keyframe; a count of zero
    /// removes it from the covisible keyframes.
    pub fn update_covisibility(&mut self, kf_id: KeyFrameId, shared_points: u32)
        ensures
            final(self).covisible@ == (if shared_points > 0 {
                old(self).covisible@.insert(kf_id, shared_points)
            } else {
                old(self).covisible@.remove(kf_id)
            }),
            final(self).map_points@ == old(self).map_points@,
            final(self).descriptors@ == old(self).descriptors@,
            final(self).parent == old(self).parent,
            final(self).children@ == old(self).children@,
            final(self).bad == old(self).bad,
    {
        if shared_points > 0 {
            self.covisible.insert(kf_id, shared_points);
        } else {
            self.covisible.remove(&kf_id);
        }
    }

    /// The covisible keyframes with their shared counts, largest count
    /// first (keyframes with equal counts come in no particular order).
    pub fn get_covisible_keyframes(&self) -> (r: Vec<(KeyFrameId, u32)>)
        ensures
            ranks_covisible(r@, self.covisible@),
    {
        let keys = keys_of(&self.covisible);
        let ghost covis = self.covisible@;
        let mut out: Vec<(KeyFrameId, u32)> = Vec::new();
        let mut i: usize = 0;
        while i < keys.len()
            invariant
                0 <= i <= keys@.len(),
                covis == self.covisible@,
                keys@.to_set() == covis.dom(),
                keys@.no_duplicates(),
                ranked_prefix(out@, keys@, i as int, covis),
            decreases keys@.len() - i,
        {
            let k = keys[i];
            proof {
                assert(keys@.to_set().contains(k));
            }
            let c: u32 = *self.covisible.get(&k).unwrap();
            let mut j: usize = 0;
            while j < out.len() && out[j].1 >= c
                invariant
                    0 <= j <= out@.len(),
                    forall|a: int| 0 <= a < j ==> out@[a].1 >= c,
                decreases out@.len() - j,
            {
                j = j + 1;
            }
            let ghost old_out = out@;
            out.insert(j, (k, c));
            proof {
                lemma_ranked_insert(old_out, keys@, i as int, covis, j as int);
            }
            i = i + 1;
        }
        proof {
            lemma_ranked_complete(out@, keys@, covis);
        }
        out
    }

    /// The `n` keyframes sharing the most map points, most first (fewer when
    /// there are fewer covisible keyframes).
    pub fn get_best_covisible(&self, n: usize) -> (r: Vec<KeyFrameId>)
        ensures
            exists|ranking: Seq<(KeyFrameId, u32)>|
                ranks_covisible(ranking, self.covisible@) && r@ == ranking.take(
                    if n < ranking.len() { n as int } else { ranking.len() as int },
                ).map_values(|p: (KeyFrameId, u32)| p.0),
    {
        let ranked = self.get_covisible_keyframes();
        let mut r: Vec<KeyFrameId> = Vec::new();
        let mut i: usize = 0;
        while i < n && i < ranked.len()
            invariant
                0 <= i <= ranked@.len(),
                i <= n,
                r@ == ranked@.take(i as int).map_values(|p: (KeyFrameId, u32)| p.0),
            decreases ranked@.len() - i,
        {
            r.push(ranked[i].0);
            proof {
                assert(r@ =~= ranked@.take(i + 1).map_values(|p: (KeyFrameId, u32)| p.0));
            }
            i = i + 1;
        }
        proof {
            assert(ranks_covisible(ranked@, self.covisible@));
        }
        r
    }

    /// Set the spanning tree parent.
    pub fn set_parent(&mut self, parent_id: KeyFrameId)
        ensures
            final(self).parent == Some(parent_id),
            final(self).map_points@ == old(self).map_points@,
            final(self).descriptors@ == old(self).descriptors@,
            final(self).covisible@ == old(self).covisible@,
            final(self).children@ == old(self).children@,
            final(self).bad == old(self).bad,
    {
        self.parent = Some(parent_id);
    }

    /// Add a spanning tree child, unless already a child.
    pub fn add_child(&mut self, child_id: KeyFrameId)
        ensures
            final(self).children@ == with_child(old(self).children@, child_id),
            final(self).map_points@ == old(self).map_points@,
            final(self).descriptors@ == old(self).descriptors@,
            final(self).covisible@ == old(self).covisible@,
            final(self).parent == old(self).parent,
            final(self).bad == old(self).bad,
    {
        if !vec_contains(&self.children, child_id) {
            self.children.push(child_id);
        }
    }

    /// Remove a spanning tree child.
    pub fn remove_child(&mut self, child_id: KeyFrameId)
        ensures
            final(self).children@ == without(old(self).children@, child_id),
            final(self).map_points@ == old(self).map_points@,
            final(self).descriptors@ == old(self).descriptors@,
            final(self).covisible@ == old(self).covisible@,
            final(self).parent == old(self).parent,
            final(self).bad == old(self).bad,
    {
        self.children = filter_out(&self.children, child_id);
    }

    /// Mark the keyframe for removal.
    pub fn set_bad(&mut self)
        ensures
            final(self).bad,
            final(self).map_points@ == old(self).map_points@,
            final(self).descriptors@ == old(self).descriptors@,
            final(self).covisible@ == old(self).covisible@,
            final(self).parent == old(self).parent,
            final(self).children@ == old(self).children@,
    {
        self.bad = true;
    }
}

} // verus!
