//! Feature vectors: features grouped by their vocabulary word, for
//! proposing feature matches between two images.

use vstd::prelude::*;
use std::collections::HashMap;
use crate::features::descriptor::OrbDescriptor;
use crate::loop_closure::vocabulary::Vocabulary;

verus! {

broadcast use vstd::std_specs::hash::group_hash_axioms;

/// Indices, in increasing order, of the first `n` descriptors whose word is `w`.
pub open spec fn indices_with_word(
    vocab: Vocabulary,
    descs: Seq<OrbDescriptor>,
    w: usize,
    n: int,
) -> Seq<usize>
    decreases n,
{
    if n <= 0 {
        seq![]
    } else {
        let prev = indices_with_word(vocab, descs, w, n - 1);
        if vocab.spec_transform(descs[n - 1]) == w {
            prev.push((n - 1) as usize)
        } else {
            prev
        }
    }
}

/// Words of the first `n` descriptors, each listed once, in order of first appearance.
pub open spec fn word_order(vocab: Vocabulary, descs: Seq<OrbDescriptor>, n: int) -> Seq<usize>
    decreases n,
{
    if n <= 0 {
        seq![]
    } else {
        let prev = word_order(vocab, descs, n - 1);
        let w = vocab.spec_transform(descs[n - 1]) as usize;
        if prev.contains(w) {
            prev
        } else {
            prev.push(w)
        }
    }
}

/// All pairs (x, y) with x from `xs` and y from `ys`, row by row.
pub open spec fn pairs_block(xs: Seq<usize>, ys: Seq<usize>) -> Seq<(usize, usize)>
    decreases xs.len(),
{
    if xs.len() == 0 {
        seq![]
    } else {
        pairs_block(xs.drop_last(), ys) + ys.map_values(|y: usize| (xs.last(), y))
    }
}

/// Candidate matches for the first `k` words of `order`: for each word that
/// both vectors hold, all pairs of its features.
pub open spec fn pairs_for_words(
    mine: Map<usize, Seq<usize>>,
    theirs: Map<usize, Seq<usize>>,
    order: Seq<usize>,
    k: int,
) -> Seq<(usize, usize)>
    decreases k,
{
    if k <= 0 {
        seq![]
    } else {
        let w = order[k - 1];
        pairs_for_words(mine, theirs, order, k - 1) + (if theirs.contains_key(w) {
            pairs_block(mine[w], theirs[w])
        } else {
            seq![]
        })
    }
}

/// Strictly increasing.
pub open spec fn strictly_increasing(s: Seq<usize>) -> bool {
    forall|i: int, j: int| 0 <= i < j < s.len() ==> s[i] < s[j]
}

/// Feature vector: word id -> indices of the features with that word.
#[derive(Debug, Clone)]
pub struct FeatureVector {
    /// word_id -> list of feature indices
    features_per_word: HashMap<usize, Vec<usize>>,
    /// The word ids held, in order of first appearance
    word_order: Vec<usize>,
}

impl FeatureVector {
    /// The feature lists of each word.
    pub closed spec fn lists(&self) -> Map<usize, Seq<usize>> {
        self.features_per_word@.map_values(|v: Vec<usize>| v@)
    }

    /// The words held, in order of first appearance.
    pub closed spec fn order(&self) -> Seq<usize> {
        self.word_order@
    }

    /// The order lists each word of the map once; each feature list is
    /// strictly increasing and no feature belongs to two words.
    pub open spec fn wf(&self) -> bool {
        &&& self.order().no_duplicates()
        &&& forall|w: usize| #[trigger] self.lists().contains_key(w) <==> self.order().contains(w)
        &&& forall|w: usize|
            #[trigger] self.lists().contains_key(w) ==> strictly_increasing(self.lists()[w])
        &&& forall|w1: usize, w2: usize, i: int, j: int|
            w1 != w2 && self.lists().contains_key(w1) && self.lists().contains_key(w2) && 0 <= i
                < self.lists()[w1].len() && 0 <= j < self.lists()[w2].len() ==> #[trigger] self.lists()[w1][i]
                != #[trigger] self.lists()[w2][j]
    }

    /// Create an empty feature vector.
    pub fn new() -> (fv: Self)
        ensures
            fv.wf(),
            fv.lists() == Map::<usize, Seq<usize>>::empty(),
            fv.order() == Seq::<usize>::empty(),
    {
        let fv = FeatureVector { features_per_word: HashMap::new(), word_order: Vec::new() };
        proof {
            assert(fv.lists() =~= Map::<usize, Seq<usize>>::empty());
        }
        fv
    }
}

/// Grouping descriptors by word is exact: each word's list is strictly
/// increasing, holds only descriptors with that word, and holds every
/// descriptor with that word.
pub proof fn lemma_indices_with_word(vocab: Vocabulary, descs: Seq<OrbDescriptor>, w: usize, n: int)
    requires
        0 <= n <= descs.len(),
        descs.len() <= usize::MAX,
    ensures
        strictly_increasing(indices_with_word(vocab, descs, w, n)),
        forall|i: int|
            0 <= i < indices_with_word(vocab, descs, w, n).len() ==> {
                let k = #[trigger] indices_with_word(vocab, descs, w, n)[i];
                &&& k < n
                &&& vocab.spec_transform(descs[k as int]) == w
            },
        forall|k: int|
            0 <= k < n && vocab.spec_transform(descs[k]) == w ==> #[trigger] indices_with_word(
                vocab,
                descs,
                w,
                n,
            ).contains(k as usize),
    decreases n,
{
    if n > 0 {
        lemma_indices_with_word(vocab, descs, w, n - 1);
        let prev = indices_with_word(vocab, descs, w, n - 1);
        let cur = indices_with_word(vocab, descs, w, n);
        assert forall|k: int|
            0 <= k < n && vocab.spec_transform(descs[k]) == w implies #[trigger] cur.contains(
            k as usize,
        ) by {
            if k < n - 1 {
                assert(prev.contains(k as usize));
                let j = choose|j: int| 0 <= j < prev.len() && prev[j] == k as usize;
                assert(cur[j] == k as usize);
            } else {
                assert(cur[cur.len() - 1] == k as usize);
            }
        }
    }
}

proof fn lemma_word_order(vocab: Vocabulary, descs: Seq<OrbDescriptor>, n: int)
    requires
        0 <= n <= descs.len(),
        descs.len() <= usize::MAX,
        0 < vocab.spec_num_words() <= usize::MAX,
    ensures
        word_order(vocab, descs, n).no_duplicates(),
        forall|w: usize|
            #[trigger] word_order(vocab, descs, n).contains(w) <==> indices_with_word(
                vocab,
                descs,
                w,
                n,
            ).len() > 0,
    decreases n,
{
    if n > 0 {
        lemma_word_order(vocab, descs, n - 1);
        let prev = word_order(vocab, descs, n - 1);
        let cur = word_order(vocab, descs, n);
        let w0 = vocab.spec_transform(descs[n - 1]) as usize;
        assert(0 <= vocab.spec_transform(descs[n - 1]) < vocab.spec_num_words());
        assert(w0 == vocab.spec_transform(descs[n - 1]));
        assert forall|w: usize|
            #[trigger] cur.contains(w) <==> indices_with_word(vocab, descs, w, n).len() > 0 by {
            if cur.contains(w) && !prev.contains(w) {
                let j = choose|j: int| 0 <= j < cur.len() && cur[j] == w;
                assert(j == prev.len());
            }
            if prev.contains(w) && !prev.contains(w0) {
                let j = choose|j: int| 0 <= j < prev.len() && prev[j] == w;
                assert(cur[j] == w);
            }
            if w == w0 && !prev.contains(w0) {
                assert(cur[prev.len() as int] == w);
            }
        }
    }
}

impl FeatureVector {
    /// Group descriptor indices by word: each word of a descriptor maps to
    /// the increasing indices of the descriptors with that word.
    pub fn from_descriptors(descriptors: &[OrbDescriptor], vocab: &Vocabulary) -> (fv: Self)
        requires
            vocab.wf(),
            descriptors@.len() > 0 ==> vocab.spec_num_words() > 0,
        ensures
            fv.wf(),
            forall|w: usize|
                #[trigger] fv.lists().contains_key(w) <==> indices_with_word(
                    *vocab,
                    descriptors@,
                    w,
                    descriptors@.len() as int,
                ).len() > 0,
            forall|w: usize|
                #[trigger] fv.lists().contains_key(w) ==> fv.lists()[w] == indices_with_word(
                    *vocab,
                    descriptors@,
                    w,
                    descriptors@.len() as int,
                ),
            fv.order() == word_order(*vocab, descriptors@, descriptors@.len() as int),
    {
        let mut map: HashMap<usize, Vec<usize>> = HashMap::new();
        let mut order: Vec<usize> = Vec::new();
        let ghost descs = descriptors@;
        let mut idx: usize = 0;
        while idx < descriptors.len()
            invariant
                descs == descriptors@,
                vocab.wf(),
                descs.len() > 0 ==> vocab.spec_num_words() > 0,
                0 <= idx <= descs.len(),
                forall|w: usize|
                    #[trigger] map@.contains_key(w) <==> indices_with_word(
                        *vocab,
                        descs,
                        w,
                        idx as int,
                    ).len() > 0,
                forall|w: usize|
                    #[trigger] map@.contains_key(w) ==> map@[w]@ == indices_with_word(
                        *vocab,
                        descs,
                        w,
                        idx as int,
                    ),
                order@ == word_order(*vocab, descs, idx as int),
            decreases descs.len() - idx,
        {
            let w = vocab.transform(&descriptors[idx]);
            proof {
                lemma_word_order(*vocab, descs, idx as int);
            }
            if map.contains_key(&w) {
                let mut v = map.remove(&w).unwrap();
                v.push(idx);
                map.insert(w, v);
            } else {
                let mut v: Vec<usize> = Vec::new();
                v.push(idx);
                map.insert(w, v);
                order.push(w);
            }
            proof {
                assert forall|w2: usize| #[trigger] map@.contains_key(w2) implies map@[w2]@
                    == indices_with_word(*vocab, descs, w2, idx + 1) by {
                    if w2 == w {
                        if idx > 0 && indices_with_word(*vocab, descs, w2, idx as int).len() == 0 {
                            assert(indices_with_word(*vocab, descs, w2, idx as int) =~= seq![]);
                        }
                    }
                }
                assert forall|w2: usize| #[trigger] map@.contains_key(w2)
                    <==> indices_with_word(*vocab, descs, w2, idx + 1).len() > 0 by {}
            }
            idx = idx + 1;
        }
        let fv = FeatureVector { features_per_word: map, word_order: order };
        proof {
            let n = descs.len() as int;
            if n > 0 {
                lemma_word_order(*vocab, descs, n);
            }
            assert forall|w: usize| #[trigger] fv.lists().contains_key(w) implies strictly_increasing(
                fv.lists()[w],
            ) by {
                lemma_indices_with_word(*vocab, descs, w, n);
            }
            assert forall|w1: usize, w2: usize, i: int, j: int|
                w1 != w2 && fv.lists().contains_key(w1) && fv.lists().contains_key(w2) && 0 <= i
                    < fv.lists()[w1].len() && 0 <= j < fv.lists()[w2].len() implies #[trigger] fv.lists()[w1][i]
                != #[trigger] fv.lists()[w2][j] by {
                lemma_indices_with_word(*vocab, descs, w1, n);
                lemma_indices_with_word(*vocab, descs, w2, n);
            }
            assert forall|w: usize| #[trigger] fv.lists().contains_key(w) <==> fv.order().contains(w) by {}
        }
        fv
    }

    /// The feature indices of a word, if the word occurs.
    pub fn features_for_word(&self, word_id: usize) -> (r: Option<&Vec<usize>>)
        ensures
            self.lists().contains_key(word_id) ==> (r matches Some(v) && v@ == self.lists()[word_id]),
            !self.lists().contains_key(word_id) ==> r is None,
    {
        self.features_per_word.get(&word_id)
    }

    /// The word ids held, in order of first appearance.
    pub fn word_ids(&self) -> (r: Vec<usize>)
        ensures
            r@ == self.order(),
    {
        self.word_order.clone()
    }
}

impl FeatureVector {
    /// Candidate feature matches with another feature vector: for each word
    /// of this vector, in order, that the other vector also holds, every
    /// pair (feature of this vector, feature of the other) with that word.
    pub fn find_matches(&self, other: &FeatureVector) -> (r: Vec<(usize, usize)>)
        requires
            self.wf(),
        ensures
            r@ == pairs_for_words(self.lists(), other.lists(), self.order(), self.order().len() as int),
    {
        let mut matches: Vec<(usize, usize)> = Vec::new();
        let mut k: usize = 0;
        while k < self.word_order.len()
            invariant
                self.wf(),
                0 <= k <= self.order().len(),
                matches@ == pairs_for_words(self.lists(), other.lists(), self.order(), k as int),
            decreases self.order().len() - k,
        {
            let w = self.word_order[k];
            proof {
                assert(self.order().contains(w));
                assert(self.lists().contains_key(w));
                assert(self.lists().dom() == self.features_per_word@.dom());
                assert(self.features_per_word@.contains_key(w));
            }
            match other.features_per_word.get(&w) {
                Some(other_indices) => {
                    let self_indices = self.features_per_word.get(&w).unwrap();
                    proof {
                        assert(self.lists()[w] == self_indices@);
                    }
                    let ghost xs = self_indices@;
                    let ghost ys = other_indices@;
                    let ghost base = matches@;
                    let mut i: usize = 0;
                    while i < self_indices.len()
                        invariant
                            0 <= i <= xs.len(),
                            xs == self_indices@,
                            ys == other_indices@,
                            matches@ == base + pairs_block(xs.take(i as int), ys),
                        decreases xs.len() - i,
                    {
                        let a = self_indices[i];
                        let mut j: usize = 0;
                        while j < other_indices.len()
                            invariant
                                0 <= i < xs.len(),
                                0 <= j <= ys.len(),
                                a == xs[i as int],
                                xs == self_indices@,
                                ys == other_indices@,
                                matches@ == base + pairs_block(xs.take(i as int), ys) + ys.take(
                                    j as int,
                                ).map_values(|y: usize| (a, y)),
                            decreases ys.len() - j,
                        {
                            let b = other_indices[j];
                            matches.push((a, b));
                            proof {
                                assert(ys.take(j + 1).map_values(|y: usize| (a, y)) =~= ys.take(
                                    j as int,
                                ).map_values(|y: usize| (a, y)).push((a, b)));
                            }
                            j = j + 1;
                        }
                        proof {
                            assert(xs.take(i + 1).drop_last() =~= xs.take(i as int));
                            assert(ys.take(ys.len() as int) =~= ys);
                            assert(pairs_block(xs.take(i + 1), ys) == pairs_block(xs.take(i as int), ys)
                                + ys.map_values(|y: usize| (a, y)));
                        }
                        i = i + 1;
                    }
                    proof {
                        assert(xs.take(xs.len() as int) =~= xs);
                        assert(self.lists()[w] == xs);
                        assert(other.lists().contains_key(w) && other.lists()[w] == ys);
                        assert(matches@ =~= pairs_for_words(
                            self.lists(),
                            other.lists(),
                            self.order(),
                            k + 1,
                        ));
                    }
                },
                None => {
                    proof {
                        assert(!other.lists().contains_key(w));
                        assert(matches@ =~= pairs_for_words(
                            self.lists(),
                            other.lists(),
                            self.order(),
                            k + 1,
                        ));
                    }
                },
            }
            k = k + 1;
        }
        matches
    }
}

} // verus!
