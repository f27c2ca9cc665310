//! Inverted index from vocabulary words to the keyframes that contain them.

use vstd::prelude::*;
use std::collections::{HashMap, HashSet};

verus! {

broadcast use vstd::std_specs::hash::group_hash_axioms;

/// Keyframe identifier.
pub type KeyFrameId = u64;

/// The list of `word` in `m`, empty when the word has none.
pub open spec fn list_of(m: Map<usize, Seq<u64>>, word: usize) -> Seq<u64> {
    if m.contains_key(word) {
        m[word]
    } else {
        seq![]
    }
}

/// The index after appending `kf` to the lists of the first `n` words of `words`.
pub open spec fn add_to_lists(m: Map<usize, Seq<u64>>, kf: u64, words: Seq<usize>, n: int) -> Map<
    usize,
    Seq<u64>,
>
    decreases n,
{
    if n <= 0 {
        m
    } else {
        let prev = add_to_lists(m, kf, words, n - 1);
        prev.insert(words[n - 1], list_of(prev, words[n - 1]).push(kf))
    }
}

/// The predicate "the id is not `kf`".
pub open spec fn other_than(kf: u64) -> spec_fn(u64) -> bool {
    |id: u64| id != kf
}

/// The ids of `s` other than `kf`, in order.
pub open spec fn without(s: Seq<u64>, kf: u64) -> Seq<u64> {
    s.filter(other_than(kf))
}

/// Inverted index: for each word, the keyframes containing it, in the order
/// they were added.
#[derive(Debug, Clone)]
pub struct InvertedIndex {
    lists: HashMap<usize, Vec<KeyFrameId>>,
}

impl InvertedIndex {
    /// The keyframe list of each word.
    pub closed spec fn spec_lists(&self) -> Map<usize, Seq<u64>> {
        self.lists@.map_values(|v: Vec<u64>| v@)
    }

    /// An empty index.
    pub fn new() -> (r: Self)
        ensures
            r.spec_lists() == Map::<usize, Seq<u64>>::empty(),
    {
        let r = InvertedIndex { lists: HashMap::new() };
        proof {
            assert(r.spec_lists() =~= Map::<usize, Seq<u64>>::empty());
        }
        r
    }

    /// Append `kf` to the list of each word in `words`, in turn.
    pub fn add(&mut self, kf: KeyFrameId, words: &[usize])
        ensures
            final(self).spec_lists() == add_to_lists(old(self).spec_lists(), kf, words@, words@.len() as int),
    {
        let mut i: usize = 0;
        while i < words.len()
            invariant
                0 <= i <= words@.len(),
                self.spec_lists() == add_to_lists(old(self).spec_lists(), kf, words@, i as int),
            decreases words@.len() - i,
        {
            let w = words[i];
            let ghost before = self.spec_lists();
            let mut list: Vec<KeyFrameId> = match self.lists.remove(&w) {
                Some(v) => v,
                None => Vec::new(),
            };
            proof {
                assert(list@ == list_of(before, w));
            }
            list.push(kf);
            self.lists.insert(w, list);
            proof {
                assert(self.spec_lists() =~= before.insert(w, list_of(before, w).push(kf)));
            }
            i = i + 1;
        }
    }

    /// Remove `kf` from the lists of the words in `words`; other lists are unchanged.
    pub fn remove(&mut self, kf: KeyFrameId, words: &[usize])
        ensures
            final(self).spec_lists().dom() == old(self).spec_lists().dom(),
            forall|w: usize|
                #[trigger] old(self).spec_lists().contains_key(w) ==> final(self).spec_lists()[w] == (if words@.contains(w) {
                    without(old(self).spec_lists()[w], kf)
                } else {
                    old(self).spec_lists()[w]
                }),
    {
        let mut i: usize = 0;
        while i < words.len()
            invariant
                0 <= i <= words@.len(),
                self.spec_lists().dom() == old(self).spec_lists().dom(),
                forall|w: usize|
                    #[trigger] old(self).spec_lists().contains_key(w) ==> self.spec_lists()[w] == (if words@.take(i as int).contains(w) {
                        without(old(self).spec_lists()[w], kf)
                    } else {
                        old(self).spec_lists()[w]
                    }),
            decreases words@.len() - i,
        {
            let w = words[i];
            let ghost before = self.spec_lists();
            if self.lists.contains_key(&w) {
                let list = self.lists.remove(&w).unwrap();
                let kept = filter_out(&list, kf);
                proof {
                    assert(list@ == before[w]);
                    lemma_without_idempotent(old(self).spec_lists()[w], kf);
                }
                self.lists.insert(w, kept);
                proof {
                    assert(self.spec_lists() =~= before.insert(w, without(before[w], kf)));
                }
            }
            proof {
                assert(words@.take(i + 1) =~= words@.take(i as int).push(w));
                assert forall|w2: usize| #[trigger] old(self).spec_lists().contains_key(w2) implies self.spec_lists()[w2]
                    == (if words@.take(i + 1).contains(w2) {
                    without(old(self).spec_lists()[w2], kf)
                } else {
                    old(self).spec_lists()[w2]
                }) by {
                    if w2 == w {
                        assert(words@.take(i + 1)[i as int] == w);
                    } else {
                        assert(self.spec_lists()[w2] == before[w2]);
                        if words@.take(i + 1).contains(w2) {
                            let k = choose|k: int| 0 <= k < i + 1 && #[trigger] words@.take(i + 1)[k] == w2;
                            assert(words@.take(i as int)[k] == w2);
                        }
                        if words@.take(i as int).contains(w2) {
                            let k = choose|k: int| 0 <= k < i && #[trigger] words@.take(i as int)[k] == w2;
                            assert(words@.take(i + 1)[k] == w2);
                        }
                    }
                }
                assert(self.spec_lists().dom() =~= old(self).spec_lists().dom());
            }
            i = i + 1;
        }
        proof {
            assert(words@.take(words@.len() as int) =~= words@);
        }
    }

    /// The keyframes listed under any of `words` and not in `exclude`, each
    /// once, in order of first appearance.
    pub fn candidates(&self, words: &[usize], exclude: &[KeyFrameId]) -> (r: Vec<KeyFrameId>)
        ensures
            r@.no_duplicates(),
            forall|id: KeyFrameId|
                #[trigger] r@.contains(id) <==> (!exclude@.contains(id) && exists|i: int|
                    0 <= i < words@.len() && list_of(self.spec_lists(), words@[i]).contains(id)),
    {
        let mut out: Vec<KeyFrameId> = Vec::new();
        let mut seen: HashSet<KeyFrameId> = HashSet::new();
        let mut i: usize = 0;
        while i < words.len()
            invariant
                0 <= i <= words@.len(),
                out@.no_duplicates(),
                forall|id: KeyFrameId| #[trigger] out@.contains(id) <==> seen@.contains(id),
                forall|id: KeyFrameId|
                    #[trigger] out@.contains(id) <==> (!exclude@.contains(id) && exists|k: int|
                        0 <= k < i && list_of(self.spec_lists(), words@[k]).contains(id)),
            decreases words@.len() - i,
        {
            let w = words[i];
            let ghost before = out@;
            match self.lists.get(&w) {
                Some(list) => {
                    proof {
                        assert(list@ == list_of(self.spec_lists(), w));
                    }
                    let mut j: usize = 0;
                    while j < list.len()
                        invariant
                            0 <= j <= list@.len(),
                            list@ == list_of(self.spec_lists(), w),
                            w == words@[i as int],
                            0 <= i < words@.len(),
                            out@.no_duplicates(),
                            forall|id: KeyFrameId| #[trigger] out@.contains(id) <==> seen@.contains(id),
                            forall|id: KeyFrameId|
                                #[trigger] out@.contains(id) <==> (before.contains(id) || (!exclude@.contains(id)
                                    && list@.take(j as int).contains(id))),
                        decreases list@.len() - j,
                    {
                        let id = list[j];
                        proof {
                            assert(list@.take(j + 1) =~= list@.take(j as int).push(id));
                        }
                        let ghost prev = out@;
                        if !seen.contains(&id) && !slice_contains(exclude, id) {
                            seen.insert(id);
                            out.push(id);
                            proof {
                                assert(!prev.contains(id));
                                assert forall|a: int, b: int| 0 <= a < b < out@.len() implies out@[a] != out@[b] by {
                                    if b == prev.len() {
                                        assert(out@[a] == prev[a]);
                                    } else {
                                        assert(out@[a] == prev[a] && out@[b] == prev[b]);
                                    }
                                }
                                assert forall|id2: KeyFrameId| #[trigger] out@.contains(id2) <==> (prev.contains(id2) || id2 == id) by {
                                    if out@.contains(id2) && id2 != id {
                                        let q = choose|q: int| 0 <= q < out@.len() && out@[q] == id2;
                                        assert(prev[q] == id2);
                                    }
                                    if prev.contains(id2) {
                                        let q = choose|q: int| 0 <= q < prev.len() && prev[q] == id2;
                                        assert(out@[q] == id2);
                                    }
                                    if id2 == id {
                                        assert(out@[prev.len() as int] == id);
                                    }
                                }
                            }
                        }
                        proof {
                            assert forall|id2: KeyFrameId| #[trigger] out@.contains(id2) <==> (before.contains(id2) || (
                            !exclude@.contains(id2) && list@.take(j + 1).contains(id2))) by {
                                if list@.take(j + 1).contains(id2) && id2 != id {
                                    let q = choose|q: int| 0 <= q < j + 1 && #[trigger] list@.take(j + 1)[q] == id2;
                                    assert(list@.take(j as int)[q] == id2);
                                }
                                if list@.take(j as int).contains(id2) {
                                    let q = choose|q: int| 0 <= q < j && #[trigger] list@.take(j as int)[q] == id2;
                                    assert(list@.take(j + 1)[q] == id2);
                                }
                                if id2 == id {
                                    assert(list@.take(j + 1)[j as int] == id2);
                                }
                            }
                        }
                        j = j + 1;
                    }
                    proof {
                        assert(list@.take(list@.len() as int) =~= list@);
                    }
                },
                None => {},
            }
            proof {
                assert forall|id: KeyFrameId| #[trigger] out@.contains(id) <==> (!exclude@.contains(id) && exists|k: int|
                    0 <= k < i + 1 && list_of(self.spec_lists(), words@[k]).contains(id)) by {
                    if out@.contains(id) && !before.contains(id) {
                        assert(list_of(self.spec_lists(), words@[i as int]).contains(id));
                    }
                    if !exclude@.contains(id) && !before.contains(id) && (exists|k: int|
                        0 <= k < i + 1 && list_of(self.spec_lists(), words@[k]).contains(id)) {
                        let k = choose|k: int| 0 <= k < i + 1 && list_of(self.spec_lists(), words@[k]).contains(id);
                        assert(k == i);
                    }
                }
            }
            i = i + 1;
        }
        out
    }

    /// The keyframes containing a word, if any were added.
    pub fn get(&self, word: usize) -> (r: Option<&Vec<KeyFrameId>>)
        ensures
            self.spec_lists().contains_key(word) ==> (r matches Some(v) && v@ == self.spec_lists()[word]),
            !self.spec_lists().contains_key(word) ==> r is None,
    {
        self.lists.get(&word)
    }
}

proof fn lemma_without_idempotent(s: Seq<u64>, kf: u64)
    ensures
        without(without(s, kf), kf) == without(s, kf),
{
    let t = without(s, kf);
    assert forall|k: int| 0 <= k < t.len() implies t[k] != kf by {
        s.lemma_filter_pred(other_than(kf), k);
    }
    lemma_filter_all_pass(t, kf);
}

proof fn lemma_filter_all_pass(t: Seq<u64>, kf: u64)
    requires
        forall|k: int| 0 <= k < t.len() ==> t[k] != kf,
    ensures
        t.filter(other_than(kf)) == t,
    decreases t.len(),
{
    reveal_with_fuel(Seq::filter, 1);
    if t.len() > 0 {
        lemma_filter_all_pass(t.drop_last(), kf);
        assert(t.drop_last().push(t.last()) =~= t);
    }
}

/// The ids of a list other than `kf`, in order.
pub(crate) fn filter_out(list: &Vec<KeyFrameId>, kf: KeyFrameId) -> (r: Vec<KeyFrameId>)
    ensures
        r@ == without(list@, kf),
{
    let mut out: Vec<KeyFrameId> = Vec::new();
    let mut i: usize = 0;
    while i < list.len()
        invariant
            0 <= i <= list@.len(),
            out@ == without(list@.take(i as int), kf),
        decreases list@.len() - i,
    {
        proof {
            reveal_with_fuel(Seq::filter, 1);
            assert(list@.take(i + 1).drop_last() =~= list@.take(i as int));
        }
        if list[i] != kf {
            out.push(list[i]);
        }
        i = i + 1;
    }
    proof {
        assert(list@.take(list@.len() as int) =~= list@);
    }
    out
}

/// Whether a slice holds a keyframe id.
fn slice_contains(s: &[KeyFrameId], x: KeyFrameId) -> (b: bool)
    ensures
        b == s@.contains(x),
{
    let mut i: usize = 0;
    while i < s.len()
        invariant
            0 <= i <= s@.len(),
            forall|j: int| 0 <= j < i ==> s@[j] != x,
        decreases s@.len() - i,
    {
        if s[i] == x {
            return true;
        }
        i = i + 1;
    }
    false
}

/// `c` copies of `kf`.
pub open spec fn repeat(kf: u64, c: int) -> Seq<u64>
    decreases c,
{
    if c <= 0 {
        seq![]
    } else {
        repeat(kf, c - 1).push(kf)
    }
}

/// Number of times `w` occurs among the first `n` words.
pub open spec fn count_of(words: Seq<usize>, n: int, w: usize) -> int
    decreases n,
{
    if n <= 0 {
        0
    } else {
        count_of(words, n - 1, w) + (if words[n - 1] == w { 1int } else { 0 })
    }
}

#[verifier::spinoff_prover]
proof fn lemma_add_shape(m: Map<usize, Seq<u64>>, kf: u64, words: Seq<usize>, n: int)
    requires
        0 <= n <= words.len(),
    ensures
        forall|w: usize|
            list_of(add_to_lists(m, kf, words, n), w) == list_of(m, w) + repeat(kf, #[trigger] count_of(words, n, w)),
        forall|w: usize|
            #[trigger] add_to_lists(m, kf, words, n).contains_key(w) <==> (m.contains_key(w) || count_of(words, n, w) > 0),
    decreases n,
{
    if n > 0 {
        lemma_add_shape(m, kf, words, n - 1);
        let prev = add_to_lists(m, kf, words, n - 1);
        let w0 = words[n - 1];
        assert forall|w: usize|
            list_of(add_to_lists(m, kf, words, n), w) == list_of(m, w) + repeat(kf, #[trigger] count_of(words, n, w)) by {
            if w == w0 {
                let c = count_of(words, n - 1, w);
                lemma_count_nonneg(words, n - 1, w);
                assert(repeat(kf, c + 1) == repeat(kf, c).push(kf));
                assert((list_of(m, w) + repeat(kf, c)).push(kf) =~= list_of(m, w) + repeat(kf, c + 1));
            }
        }
        assert forall|w: usize|
            #[trigger] add_to_lists(m, kf, words, n).contains_key(w) <==> (m.contains_key(w) || count_of(words, n, w) > 0) by {
            lemma_count_nonneg(words, n - 1, w);
        }
    }
}

proof fn lemma_count_nonneg(words: Seq<usize>, n: int, w: usize)
    ensures
        count_of(words, n, w) >= 0,
    decreases n,
{
    if n > 0 {
        lemma_count_nonneg(words, n - 1, w);
    }
}

proof fn lemma_count_positive(words: Seq<usize>, n: int, w: usize)
    requires
        0 <= n <= words.len(),
    ensures
        count_of(words, n, w) > 0 <==> words.take(n).contains(w),
    decreases n,
{
    if n > 0 {
        lemma_count_positive(words, n - 1, w);
        lemma_count_nonneg(words, n - 1, w);
        assert(words.take(n) =~= words.take(n - 1).push(words[n - 1]));
        if words.take(n - 1).contains(w) {
            let k = choose|k: int| 0 <= k < n - 1 && #[trigger] words.take(n - 1)[k] == w;
            assert(words.take(n)[k] == w);
        }
        if words.take(n).contains(w) && words[n - 1] != w {
            let k = choose|k: int| 0 <= k < n && #[trigger] words.take(n)[k] == w;
            assert(words.take(n - 1)[k] == w);
        }
        if words[n - 1] == w {
            assert(words.take(n)[n - 1] == w);
        }
    }
}

proof fn lemma_without_repeat(kf: u64, c: int)
    ensures
        without(repeat(kf, c), kf) == Seq::<u64>::empty(),
    decreases c,
{
    reveal_with_fuel(Seq::filter, 1);
    if c > 0 {
        lemma_without_repeat(kf, c - 1);
        assert(repeat(kf, c).drop_last() =~= repeat(kf, c - 1));
    }
    assert(without(repeat(kf, c), kf) =~= Seq::<u64>::empty());
}

/// Removing a keyframe undoes adding it: when no list held the keyframe,
/// adding it under some words and then removing it under the same words
/// gives back every list held before, and leaves an empty list for each
/// word that had none.
pub proof fn lemma_remove_undoes_add(
    before: Map<usize, Seq<u64>>,
    kf: u64,
    words: Seq<usize>,
    after: Map<usize, Seq<u64>>,
)
    requires
        forall|w: usize| #[trigger] before.contains_key(w) ==> !before[w].contains(kf),
        after.dom() == add_to_lists(before, kf, words, words.len() as int).dom(),
        forall|w: usize|
            #[trigger] add_to_lists(before, kf, words, words.len() as int).contains_key(w) ==> after[w] == (if words.contains(w) {
                without(add_to_lists(before, kf, words, words.len() as int)[w], kf)
            } else {
                add_to_lists(before, kf, words, words.len() as int)[w]
            }),
    ensures
        forall|w: usize| #[trigger] before.contains_key(w) ==> after.contains_key(w) && after[w] == before[w],
        forall|w: usize|
            #[trigger] words.contains(w) && !before.contains_key(w) ==> after.contains_key(w) && after[w] == Seq::<u64>::empty(),
{
    let n = words.len() as int;
    let added = add_to_lists(before, kf, words, n);
    lemma_add_shape(before, kf, words, n);
    assert(words.take(n) =~= words);
    assert forall|w: usize| #[trigger] before.contains_key(w) implies after.contains_key(w) && after[w] == before[w] by {
        let c = count_of(words, n, w);
        assert(added.contains_key(w));
        assert(list_of(added, w) == before[w] + repeat(kf, c));
        lemma_count_positive(words, n, w);
        lemma_count_nonneg(words, n, w);
        assert(words.take(n) =~= words);
        assert forall|k: int| 0 <= k < before[w].len() implies before[w][k] != kf by {
            if before[w][k] == kf {
                assert(before[w].contains(kf));
            }
        }
        lemma_filter_all_pass(before[w], kf);
        if words.contains(w) {
            lemma_without_repeat(kf, c);
            Seq::filter_distributes_over_add(before[w], repeat(kf, c), other_than(kf));
            assert(without(before[w] + repeat(kf, c), kf) =~= before[w]);
        } else {
            assert(c == 0);
            assert(before[w] + repeat(kf, c) =~= before[w]);
        }
    }
    assert forall|w: usize| #[trigger] words.contains(w) && !before.contains_key(w) implies after.contains_key(w) && after[w]
        == Seq::<u64>::empty() by {
        let c = count_of(words, n, w);
        lemma_count_positive(words, n, w);
        assert(words.take(n) =~= words);
        assert(c > 0);
        assert(added.contains_key(w));
        assert(after[w] == without(added[w], kf));
        assert(list_of(added, w) == seq![] + repeat(kf, c));
        assert(seq![] + repeat(kf, c) =~= repeat(kf, c));
        lemma_without_repeat(kf, c);
    }
}

/// After removing a keyframe under some words, none of their lists holds it.
pub proof fn lemma_remove_clears(s: Seq<u64>, kf: u64)
    ensures
        !without(s, kf).contains(kf),
{
    if without(s, kf).contains(kf) {
        let k = choose|k: int| 0 <= k < without(s, kf).len() && without(s, kf)[k] == kf;
        s.lemma_filter_pred(other_than(kf), k);
    }
}

} // verus!
