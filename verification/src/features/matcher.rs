//! Brute-force matching of ORB descriptors by Hamming distance, with
//! cross-check validation, k-nearest-neighbour queries and a stable sort
//! of matches by distance.

use vstd::prelude::*;
use crate::features::descriptor::{
    OrbDescriptor, descriptor_distance, lemma_distance_symmetric, lemma_distance_bounded,
    lemma_distance_zero_iff_equal,
};

verus! {

/// Default maximum Hamming distance for a valid match.
pub const DEFAULT_MAX_DISTANCE: u32 = 64;

/// A match between two descriptors. Matches are ordered by distance alone
/// (see `match_order`).
#[derive(Debug, Clone, Copy, PartialEq, Eq, Structural)]
pub struct Match {
    /// Index in the query descriptor set
    pub query_idx: usize,
    /// Index in the train descriptor set
    pub train_idx: usize,
    /// Hamming distance between descriptors (0-256)
    pub distance: u32,
}

impl Match {
    /// Create a new match.
    pub fn new(query_idx: usize, train_idx: usize, distance: u32) -> (m: Self)
        ensures
            m.query_idx == query_idx,
            m.train_idx == train_idx,
            m.distance == distance,
    {
        Match { query_idx, train_idx, distance }
    }
}

/// Index of the first train descriptor, among the first `n`, at the smallest
/// distance from `q`.
pub open spec fn nearest_index(q: OrbDescriptor, train: Seq<OrbDescriptor>, n: int) -> int
    decreases n,
{
    if n <= 1 {
        0
    } else {
        let b = nearest_index(q, train, n - 1);
        if descriptor_distance(q, train[n - 1]) < descriptor_distance(q, train[b]) {
            n - 1
        } else {
            b
        }
    }
}

/// The best match of query descriptor `qi`, if its distance is within `max`.
pub open spec fn best_match(
    query: Seq<OrbDescriptor>,
    train: Seq<OrbDescriptor>,
    max: u32,
    qi: int,
) -> Option<Match> {
    let t = nearest_index(query[qi], train, train.len() as int);
    let d = descriptor_distance(query[qi], train[t]);
    if d <= max {
        Some(Match { query_idx: qi as usize, train_idx: t as usize, distance: d as u32 })
    } else {
        None
    }
}

/// Best matches of the first `n` query descriptors, in query order.
pub open spec fn best_matches_prefix(
    query: Seq<OrbDescriptor>,
    train: Seq<OrbDescriptor>,
    max: u32,
    n: int,
) -> Seq<Match>
    decreases n,
{
    if n <= 0 {
        seq![]
    } else {
        let prev = best_matches_prefix(query, train, max, n - 1);
        match best_match(query, train, max, n - 1) {
            Some(m) => prev.push(m),
            None => prev,
        }
    }
}

/// The result of brute-force matching: for each query descriptor in order,
/// its nearest train descriptor, kept when within `max`.
pub open spec fn brute_force_matches(
    query: Seq<OrbDescriptor>,
    train: Seq<OrbDescriptor>,
    max: u32,
) -> Seq<Match> {
    if query.len() == 0 || train.len() == 0 {
        seq![]
    } else {
        best_matches_prefix(query, train, max, query.len() as int)
    }
}

/// A forward match passes the cross check when its query descriptor is also
/// the nearest query descriptor of its train descriptor.
pub open spec fn passes_cross_check(
    query: Seq<OrbDescriptor>,
    train: Seq<OrbDescriptor>,
    m: Match,
) -> bool {
    nearest_index(train[m.train_idx as int], query, query.len() as int) == m.query_idx
}

/// The first `n` forward matches that pass the cross check.
pub open spec fn cross_checked_prefix(
    fwd: Seq<Match>,
    query: Seq<OrbDescriptor>,
    train: Seq<OrbDescriptor>,
    n: int,
) -> Seq<Match>
    decreases n,
{
    if n <= 0 {
        seq![]
    } else {
        let prev = cross_checked_prefix(fwd, query, train, n - 1);
        if passes_cross_check(query, train, fwd[n - 1]) {
            prev.push(fwd[n - 1])
        } else {
            prev
        }
    }
}

/// The result of cross-checked matching.
pub open spec fn cross_check_matches(
    query: Seq<OrbDescriptor>,
    train: Seq<OrbDescriptor>,
    max: u32,
) -> Seq<Match> {
    let fwd = brute_force_matches(query, train, max);
    cross_checked_prefix(fwd, query, train, fwd.len() as int)
}

/// The nearest index is the first train descriptor at the smallest distance.
pub proof fn lemma_nearest_index(q: OrbDescriptor, train: Seq<OrbDescriptor>, n: int)
    requires
        1 <= n <= train.len(),
    ensures
        0 <= nearest_index(q, train, n) < n,
        forall|j: int|
            0 <= j < n ==> descriptor_distance(q, train[nearest_index(q, train, n)])
                <= #[trigger] descriptor_distance(q, train[j]),
        forall|j: int|
            0 <= j < nearest_index(q, train, n) ==> descriptor_distance(
                q,
                train[nearest_index(q, train, n)],
            ) < #[trigger] descriptor_distance(q, train[j]),
    decreases n,
{
    if n > 1 {
        lemma_nearest_index(q, train, n - 1);
    }
}

/// Find the first train descriptor at the smallest distance from `q`.
fn nearest(q: &OrbDescriptor, train: &[OrbDescriptor]) -> (r: (usize, u32))
    requires
        train@.len() >= 1,
    ensures
        r.0 == nearest_index(*q, train@, train@.len() as int),
        r.1 == descriptor_distance(*q, train@[r.0 as int]),
{
    let mut best_distance = q.distance(&train[0]);
    let mut best_idx: usize = 0;
    let mut t: usize = 1;
    while t < train.len()
        invariant
            1 <= t <= train@.len(),
            best_idx == nearest_index(*q, train@, t as int),
            best_distance == descriptor_distance(*q, train@[best_idx as int]),
        decreases train@.len() - t,
    {
        let d = q.distance(&train[t]);
        if d < best_distance {
            best_distance = d;
            best_idx = t;
        }
        t = t + 1;
    }
    (best_idx, best_distance)
}

/// Smallest distance from `q` to the first `n` train descriptors other than
/// the one at `skip`, or `u32::MAX` when there is none.
pub open spec fn min_excluding(q: OrbDescriptor, train: Seq<OrbDescriptor>, n: int, skip: int) -> int
    decreases n,
{
    if n <= 0 {
        u32::MAX as int
    } else {
        let p = min_excluding(q, train, n - 1, skip);
        if n - 1 == skip {
            p
        } else {
            let d = descriptor_distance(q, train[n - 1]) as int;
            if d < p {
                d
            } else {
                p
            }
        }
    }
}

proof fn lemma_min_excluding_all(q: OrbDescriptor, train: Seq<OrbDescriptor>, m: int, skip: int)
    requires
        1 <= m <= train.len(),
        skip >= m,
    ensures
        min_excluding(q, train, m, skip) == descriptor_distance(q, train[nearest_index(q, train, m)]),
    decreases m,
{
    lemma_distance_bounded(q, train[m - 1]);
    assert(min_excluding(q, train, 0, skip) == u32::MAX as int);
    if m > 1 {
        lemma_min_excluding_all(q, train, m - 1, skip);
        lemma_nearest_index(q, train, m - 1);
    }
}

/// The nearest train descriptor of `q` (the first at the smallest distance),
/// its distance, and the smallest distance among the other train descriptors
/// (`u32::MAX` when there is no other).
pub fn two_nearest(q: &OrbDescriptor, train: &[OrbDescriptor]) -> (r: (usize, u32, u32))
    requires
        train@.len() >= 1,
    ensures
        r.0 == nearest_index(*q, train@, train@.len() as int),
        r.1 == descriptor_distance(*q, train@[r.0 as int]),
        r.2 == min_excluding(*q, train@, train@.len() as int, r.0 as int),
{
    let mut best_distance = q.distance(&train[0]);
    let mut second_distance: u32 = u32::MAX;
    let mut best_idx: usize = 0;
    let mut t: usize = 1;
    proof {
        assert(min_excluding(*q, train@, 0, 0) == u32::MAX as int);
    }
    while t < train.len()
        invariant
            1 <= t <= train@.len(),
            best_idx == nearest_index(*q, train@, t as int),
            best_idx < t,
            best_distance == descriptor_distance(*q, train@[best_idx as int]),
            second_distance == min_excluding(*q, train@, t as int, best_idx as int),
        decreases train@.len() - t,
    {
        let d = q.distance(&train[t]);
        if d < best_distance {
            proof {
                lemma_min_excluding_all(*q, train@, t as int, t as int);
                assert(min_excluding(*q, train@, t + 1, t as int) == min_excluding(*q, train@, t as int, t as int));
            }
            second_distance = best_distance;
            best_distance = d;
            best_idx = t;
        } else if d < second_distance {
            second_distance = d;
        }
        t = t + 1;
    }
    (best_idx, best_distance, second_distance)
}

/// Brute-force matcher for ORB descriptors.
pub struct BruteForceMatcher {
    /// Maximum allowed Hamming distance
    pub max_distance: u32,
}

impl BruteForceMatcher {
    /// Create a new matcher with the default maximum distance.
    pub fn new() -> (m: Self)
        ensures
            m.max_distance == DEFAULT_MAX_DISTANCE,
    {
        BruteForceMatcher { max_distance: DEFAULT_MAX_DISTANCE }
    }

    /// Create a matcher with a custom maximum distance.
    pub fn with_max_distance(max_distance: u32) -> (m: Self)
        ensures
            m.max_distance == max_distance,
    {
        BruteForceMatcher { max_distance }
    }

    /// Set the maximum distance threshold.
    pub fn set_max_distance(&mut self, max_distance: u32)
        ensures
            final(self).max_distance == max_distance,
    {
        self.max_distance = max_distance;
    }

    /// Find the best match for each query descriptor; matches come in query order.
    pub fn match_descriptors(&self, query: &[OrbDescriptor], train: &[OrbDescriptor]) -> (r: Vec<
        Match,
    >)
        ensures
            r@ == brute_force_matches(query@, train@, self.max_distance),
    {
        let mut matches: Vec<Match> = Vec::new();
        if query.len() == 0 || train.len() == 0 {
            return matches;
        }
        let mut qi: usize = 0;
        while qi < query.len()
            invariant
                0 <= qi <= query@.len(),
                train@.len() >= 1,
                matches@ == best_matches_prefix(query@, train@, self.max_distance, qi as int),
            decreases query@.len() - qi,
        {
            let (t, d) = nearest(&query[qi], train);
            if d <= self.max_distance {
                matches.push(Match::new(qi, t, d));
            }
            qi = qi + 1;
        }
        matches
    }

    /// Match with cross-check validation: keep a forward match only when the
    /// matched train descriptor's own nearest query descriptor is the query.
    pub fn match_cross_check(&self, query: &[OrbDescriptor], train: &[OrbDescriptor]) -> (r: Vec<
        Match,
    >)
        ensures
            r@ == cross_check_matches(query@, train@, self.max_distance),
    {
        if query.len() == 0 || train.len() == 0 {
            return Vec::new();
        }
        let forward = self.match_descriptors(query, train);
        // reverse_map[t]: the query index that train descriptor t matches best,
        // or usize::MAX when that match is beyond the threshold.
        let mut reverse_map: Vec<usize> = Vec::new();
        let mut t: usize = 0;
        while t < train.len()
            invariant
                0 <= t <= train@.len(),
                query@.len() >= 1,
                reverse_map@.len() == t,
                forall|j: int|
                    0 <= j < t ==> #[trigger] reverse_map@[j] == (if descriptor_distance(
                        train@[j],
                        query@[nearest_index(train@[j], query@, query@.len() as int)],
                    ) <= self.max_distance {
                        nearest_index(train@[j], query@, query@.len() as int) as usize
                    } else {
                        usize::MAX
                    }),
            decreases train@.len() - t,
        {
            let (qi, d) = nearest(&train[t], query);
            if d <= self.max_distance {
                reverse_map.push(qi);
            } else {
                reverse_map.push(usize::MAX);
            }
            t = t + 1;
        }
        proof { lemma_forward_matches_valid(query@, train@, self.max_distance, query@.len() as int); }
        let mut result: Vec<Match> = Vec::new();
        let mut k: usize = 0;
        while k < forward.len()
            invariant
                0 <= k <= forward@.len(),
                forward@ == brute_force_matches(query@, train@, self.max_distance),
                query@.len() >= 1,
                train@.len() >= 1,
                reverse_map@.len() == train@.len(),
                forall|j: int|
                    0 <= j < train@.len() ==> #[trigger] reverse_map@[j] == (if descriptor_distance(
                        train@[j],
                        query@[nearest_index(train@[j], query@, query@.len() as int)],
                    ) <= self.max_distance {
                        nearest_index(train@[j], query@, query@.len() as int) as usize
                    } else {
                        usize::MAX
                    }),
                forall|i: int|
                    0 <= i < forward@.len() ==> {
                        let m = #[trigger] forward@[i];
                        &&& 0 <= m.query_idx < query@.len()
                        &&& 0 <= m.train_idx < train@.len()
                        &&& m.distance == descriptor_distance(
                            query@[m.query_idx as int],
                            train@[m.train_idx as int],
                        )
                        &&& m.distance <= self.max_distance
                    },
                result@ == cross_checked_prefix(forward@, query@, train@, k as int),
            decreases forward@.len() - k,
        {
            let m = forward[k];
            proof {
                assert(m == forward@[k as int]);
                let ti = m.train_idx as int;
                assert(0 <= ti < train@.len());
                assert(m.query_idx < query@.len());
                assert(m.distance == descriptor_distance(query@[m.query_idx as int], train@[ti]));
                let qn = nearest_index(train@[ti], query@, query@.len() as int);
                lemma_nearest_index(train@[ti], query@, query@.len() as int);
                lemma_distance_symmetric(query@[m.query_idx as int], train@[ti]);
                if qn == m.query_idx {
                    assert(descriptor_distance(train@[ti], query@[qn]) <= self.max_distance);
                }
                assert(query@.len() == query.len());
                assert(0 <= qn < query@.len());
                if passes_cross_check(query@, train@, m) {
                    assert(reverse_map@[ti] == qn as usize);
                }
                if reverse_map@[ti] == m.query_idx {
                    assert(m.query_idx != usize::MAX);
                    assert(reverse_map@[ti] == qn as usize);
                }
                assert(reverse_map@[ti] == m.query_idx <==> passes_cross_check(query@, train@, m));
            }
            if reverse_map[m.train_idx] == m.query_idx {
                result.push(m);
            }
            k = k + 1;
        }
        result
    }
}

/// Every entry of the best-match prefix names valid indices and its true distance.
proof fn lemma_forward_matches_valid(
    query: Seq<OrbDescriptor>,
    train: Seq<OrbDescriptor>,
    max: u32,
    n: int,
)
    requires
        0 <= n <= query.len(),
        query.len() <= usize::MAX,
        train.len() <= usize::MAX,
    ensures
        forall|i: int|
            0 <= i < brute_force_matches(query, train, max).len() ==> {
                let m = #[trigger] brute_force_matches(query, train, max)[i];
                &&& 0 <= m.query_idx < query.len()
                &&& 0 <= m.train_idx < train.len()
                &&& m.distance == descriptor_distance(
                    query[m.query_idx as int],
                    train[m.train_idx as int],
                )
                &&& m.distance <= max
            },
{
    if query.len() > 0 && train.len() > 0 {
        lemma_best_prefix_valid(query, train, max, query.len() as int);
    }
}

proof fn lemma_best_prefix_valid(
    query: Seq<OrbDescriptor>,
    train: Seq<OrbDescriptor>,
    max: u32,
    n: int,
)
    requires
        0 <= n <= query.len(),
        train.len() >= 1,
        query.len() <= usize::MAX,
        train.len() <= usize::MAX,
    ensures
        forall|i: int|
            0 <= i < best_matches_prefix(query, train, max, n).len() ==> {
                let m = #[trigger] best_matches_prefix(query, train, max, n)[i];
                &&& 0 <= m.query_idx < n
                &&& 0 <= m.train_idx < train.len()
                &&& m.distance == descriptor_distance(
                    query[m.query_idx as int],
                    train[m.train_idx as int],
                )
                &&& m.distance <= max
                &&& m.train_idx == nearest_index(query[m.query_idx as int], train, train.len() as int)
            },
        forall|qi: int|
            0 <= qi < n && #[trigger] best_match(query, train, max, qi) is Some
                ==> best_matches_prefix(query, train, max, n).contains(
                best_match(query, train, max, qi)->0,
            ),
    decreases n,
{
    if n > 0 {
        lemma_best_prefix_valid(query, train, max, n - 1);
        lemma_nearest_index(query[n - 1], train, train.len() as int);
        let t = nearest_index(query[n - 1], train, train.len() as int);
        lemma_distance_bounded(query[n - 1], train[t]);
        let prev = best_matches_prefix(query, train, max, n - 1);
        let cur = best_matches_prefix(query, train, max, n);
        assert forall|i: int| 0 <= i < prev.len() implies best_matches_prefix(query, train, max, n)[i]
            == prev[i] by {}
        assert forall|qi: int|
            0 <= qi < n && #[trigger] best_match(query, train, max, qi) is Some implies cur.contains(
            best_match(query, train, max, qi)->0,
        ) by {
            if qi < n - 1 {
                let k = choose|k: int| 0 <= k < prev.len() && prev[k] == best_match(query, train, max, qi)->0;
                assert(cur[k] == prev[k]);
            } else {
                assert(cur[cur.len() - 1] == best_match(query, train, max, qi)->0);
            }
        }
    }
}

/// Match descriptors with basic brute force (convenience function).
pub fn match_descriptors(query: &[OrbDescriptor], train: &[OrbDescriptor], max_distance: u32) -> (r:
    Vec<Match>)
    ensures
        r@ == brute_force_matches(query@, train@, max_distance),
{
    BruteForceMatcher::with_max_distance(max_distance).match_descriptors(query, train)
}

/// Match descriptors with cross-check validation (convenience function).
pub fn match_cross_check(query: &[OrbDescriptor], train: &[OrbDescriptor], max_distance: u32) -> (r:
    Vec<Match>)
    ensures
        r@ == cross_check_matches(query@, train@, max_distance),
{
    BruteForceMatcher::with_max_distance(max_distance).match_cross_check(query, train)
}

/// `new` lists the matches of `old` ordered by distance, with matches at equal
/// distance kept in their original order; `p` maps each position of `new` to
/// the position in `old` it came from.
pub open spec fn stably_sorted_by(old: Seq<Match>, new: Seq<Match>, p: Seq<int>) -> bool {
    &&& new.len() == old.len()
    &&& p.len() == old.len()
    &&& forall|i: int| 0 <= i < new.len() ==> 0 <= #[trigger] p[i] < old.len() && new[i] == old[p[i]]
    &&& forall|i: int, j: int|
        0 <= i < j < new.len() ==> (#[trigger] new[i]).distance < (#[trigger] new[j]).distance || (
        new[i].distance == new[j].distance && p[i] < p[j])
    &&& forall|j: int| 0 <= j < old.len() ==> #[trigger] appears_in(p, j)
}

/// Some position of `p` holds `j`.
pub open spec fn appears_in(p: Seq<int>, j: int) -> bool {
    exists|i: int| 0 <= i < p.len() && p[i] == j
}

/// `new` is the stable sort of `old` by distance.
pub open spec fn is_stable_sort_by_distance(old: Seq<Match>, new: Seq<Match>) -> bool {
    exists|p: Seq<int>| stably_sorted_by(old, new, p)
}

/// Stable insertion sort of matches by distance.
fn stable_sorted(v: &[Match]) -> (r: (Vec<Match>, Ghost<Seq<int>>))
    ensures
        stably_sorted_by(v@, r.0@, r.1@),
{
    let mut out: Vec<Match> = Vec::new();
    let ghost mut p: Seq<int> = seq![];
    let mut i: usize = 0;
    while i < v.len()
        invariant
            0 <= i <= v@.len(),
            stably_sorted_by(v@.take(i as int), out@, p),
        decreases v@.len() - i,
    {
        let m = v[i];
        let mut pos: usize = 0;
        while pos < out.len() && out[pos].distance <= m.distance
            invariant
                0 <= pos <= out@.len(),
                forall|k: int| 0 <= k < pos ==> (#[trigger] out@[k]).distance <= m.distance,
            decreases out@.len() - pos,
        {
            pos = pos + 1;
        }
        let ghost old_out = out@;
        let ghost old_p = p;
        proof {
            assert forall|k: int| pos <= k < old_out.len() implies m.distance < (
            #[trigger] old_out[k]).distance by {
                if k > pos {
                    assert(old_out[pos as int].distance <= old_out[k].distance);
                }
            }
        }
        out.insert(pos, m);
        proof {
            p = old_p.insert(pos as int, i as int);
            let vt = v@.take(i as int);
            let vt1 = v@.take(i as int + 1);
            assert forall|k: int| 0 <= k < out@.len() implies 0 <= #[trigger] p[k] < vt1.len()
                && out@[k] == vt1[p[k]] by {
                if k < pos {
                    assert(out@[k] == old_out[k]);
                    assert(p[k] == old_p[k]);
                } else if k > pos {
                    assert(out@[k] == old_out[k - 1]);
                    assert(p[k] == old_p[k - 1]);
                }
            }
            assert forall|a: int, b: int| 0 <= a < b < out@.len() implies (
            #[trigger] out@[a]).distance < (#[trigger] out@[b]).distance || (out@[a].distance
                == out@[b].distance && p[a] < p[b]) by {
                if a < pos && b < pos {
                    assert(old_out[a] == out@[a] && old_out[b] == out@[b]);
                } else if a < pos && b == pos {
                    assert(old_out[a] == out@[a]);
                    assert(old_p[a] < i);
                } else if a < pos && b > pos {
                    assert(old_out[a] == out@[a] && old_out[b - 1] == out@[b]);
                } else if a == pos {
                    assert(old_out[b - 1] == out@[b]);
                } else {
                    assert(old_out[a - 1] == out@[a] && old_out[b - 1] == out@[b]);
                }
            }
            assert forall|j: int| 0 <= j < vt1.len() implies #[trigger] appears_in(p, j) by {
                if j == i {
                    assert(p[pos as int] == j);
                } else {
                    assert(0 <= j < vt.len());
                    assert(appears_in(old_p, j));
                    let k0 = choose|k: int| 0 <= k < old_p.len() && old_p[k] == j;
                    if k0 < pos {
                        assert(p[k0] == j);
                    } else {
                        assert(p[k0 + 1] == j);
                    }
                }
            }
        }
        i = i + 1;
    }
    proof {
        assert(v@.take(v@.len() as int) =~= v@);
    }
    (out, Ghost(p))
}

/// Sort matches by distance (ascending); matches at equal distance keep
/// their relative order.
pub fn sort_by_distance(matches: &mut [Match])
    ensures
        is_stable_sort_by_distance(old(matches)@, final(matches)@),
{
    let (sorted, Ghost(p)) = stable_sorted(matches);
    let ghost original = matches@;
    let mut i: usize = 0;
    while i < sorted.len()
        invariant
            0 <= i <= sorted@.len(),
            matches@.len() == sorted@.len(),
            stably_sorted_by(original, sorted@, p),
            forall|k: int| 0 <= k < i ==> matches@[k] == sorted@[k],
        decreases sorted@.len() - i,
    {
        matches[i] = sorted[i];
        i = i + 1;
    }
    proof {
        assert(matches@ =~= sorted@);
    }
}

/// The predicate "the match distance is at most `max`".
pub open spec fn within_distance(max: u32) -> spec_fn(Match) -> bool {
    |m: Match| m.distance <= max
}

/// Filter matches by maximum distance, keeping their order.
pub fn filter_by_distance(matches: &[Match], max_distance: u32) -> (r: Vec<Match>)
    ensures
        r@ == matches@.filter(within_distance(max_distance)),
{
    let mut out: Vec<Match> = Vec::new();
    let mut i: usize = 0;
    while i < matches.len()
        invariant
            0 <= i <= matches@.len(),
            out@ == matches@.take(i as int).filter(within_distance(max_distance)),
        decreases matches@.len() - i,
    {
        proof {
            reveal_with_fuel(Seq::filter, 1);
            assert(matches@.take(i as int + 1).drop_last() =~= matches@.take(i as int));
        }
        if matches[i].distance <= max_distance {
            out.push(matches[i]);
        }
        i = i + 1;
    }
    proof {
        assert(matches@.take(matches@.len() as int) =~= matches@);
    }
    out
}

/// Lexicographic order on (distance, train index).
pub open spec fn rank_lt(d1: int, t1: int, d2: int, t2: int) -> bool {
    d1 < d2 || (d1 == d2 && t1 < t2)
}

/// `r` lists the `kk` train descriptors nearest to query `q` (number `qi`):
/// ordered by distance and then train index, and holding every train
/// descriptor that ranks no later than its last entry.
pub open spec fn is_knn_list(
    q: OrbDescriptor,
    qi: int,
    train: Seq<OrbDescriptor>,
    kk: int,
    r: Seq<Match>,
) -> bool {
    &&& r.len() == kk
    &&& forall|i: int|
        0 <= i < r.len() ==> {
            &&& (#[trigger] r[i]).query_idx == qi
            &&& 0 <= r[i].train_idx < train.len()
            &&& r[i].distance == descriptor_distance(q, train[r[i].train_idx as int])
        }
    &&& forall|i: int, j: int|
        0 <= i < j < r.len() ==> rank_lt(
            (#[trigger] r[i]).distance as int,
            r[i].train_idx as int,
            (#[trigger] r[j]).distance as int,
            r[j].train_idx as int,
        )
    &&& forall|t: int|
        0 <= t < train.len() && kk > 0 && !rank_lt(
            r[kk - 1].distance as int,
            r[kk - 1].train_idx as int,
            descriptor_distance(q, #[trigger] train[t]) as int,
            t,
        ) ==> exists|i: int| 0 <= i < r.len() && r[i].train_idx == t
}

/// Find the k nearest train descriptors for each query descriptor.
///
/// Returns one list per query descriptor; when `query` or `train` is empty or
/// `k` is zero, every list is empty; otherwise each list holds
/// `min(k, train.len())` matches ordered by distance, ties by train index.
pub fn knn_match(query: &[OrbDescriptor], train: &[OrbDescriptor], k: usize) -> (r: Vec<Vec<Match>>)
    ensures
        r@.len() == query@.len(),
        query@.len() == 0 || train@.len() == 0 || k == 0 ==> forall|i: int|
            0 <= i < r@.len() ==> (#[trigger] r@[i])@.len() == 0,
        !(query@.len() == 0 || train@.len() == 0 || k == 0) ==> forall|i: int|
            0 <= i < r@.len() ==> is_knn_list(
                query@[i],
                i,
                train@,
                if k < train@.len() { k as int } else { train@.len() as int },
                (#[trigger] r@[i])@,
            ),
{
    let mut result: Vec<Vec<Match>> = Vec::new();
    if query.len() == 0 || train.len() == 0 || k == 0 {
        let mut i: usize = 0;
        while i < query.len()
            invariant
                0 <= i <= query@.len(),
                result@.len() == i,
                forall|j: int| 0 <= j < i ==> (#[trigger] result@[j])@.len() == 0,
            decreases query@.len() - i,
        {
            result.push(Vec::new());
            i = i + 1;
        }
        return result;
    }
    let kk: usize = if k < train.len() { k } else { train.len() };
    let mut qi: usize = 0;
    while qi < query.len()
        invariant
            0 <= qi <= query@.len(),
            1 <= kk <= train@.len(),
            kk as int == (if k < train@.len() { k as int } else { train@.len() as int }),
            result@.len() == qi,
            forall|j: int|
                0 <= j < qi ==> is_knn_list(query@[j], j, train@, kk as int, (#[trigger] result@[j])@),
        decreases query@.len() - qi,
    {
        let q = query[qi];
        let mut candidates: Vec<Match> = Vec::new();
        let mut t: usize = 0;
        while t < train.len()
            invariant
                0 <= t <= train@.len(),
                candidates@.len() == t,
                q == query@[qi as int],
                forall|j: int|
                    0 <= j < t ==> (#[trigger] candidates@[j]).train_idx == j
                        && candidates@[j].query_idx == qi
                        && candidates@[j].distance == descriptor_distance(q, train@[j]),
            decreases train@.len() - t,
        {
            let d = q.distance(&train[t]);
            candidates.push(Match::new(qi, t, d));
            t = t + 1;
        }
        let (sorted, Ghost(p)) = stable_sorted(candidates.as_slice());
        let mut best: Vec<Match> = Vec::new();
        let mut i: usize = 0;
        while i < kk
            invariant
                0 <= i <= kk,
                kk <= sorted@.len(),
                best@ =~= sorted@.take(i as int),
            decreases kk - i,
        {
            best.push(sorted[i]);
            i = i + 1;
        }
        proof {
            let c = candidates@;
            let s = sorted@;
            let b = best@;
            assert forall|i: int| 0 <= i < b.len() implies {
                &&& (#[trigger] b[i]).query_idx == qi
                &&& 0 <= b[i].train_idx < train@.len()
                &&& b[i].distance == descriptor_distance(q, train@[b[i].train_idx as int])
            } by {
                assert(b[i] == s[i]);
                assert(s[i] == c[p[i]]);
            }
            assert forall|i: int, j: int| 0 <= i < j < b.len() implies rank_lt(
                (#[trigger] b[i]).distance as int,
                b[i].train_idx as int,
                (#[trigger] b[j]).distance as int,
                b[j].train_idx as int,
            ) by {
                assert(b[i] == s[i] && b[j] == s[j]);
                assert(s[i] == c[p[i]] && s[j] == c[p[j]]);
            }
            assert forall|t: int|
                0 <= t < train@.len() && kk > 0 && !rank_lt(
                    b[kk - 1].distance as int,
                    b[kk - 1].train_idx as int,
                    descriptor_distance(q, #[trigger] train@[t]) as int,
                    t,
                ) implies exists|i: int| 0 <= i < b.len() && b[i].train_idx == t by {
                assert(appears_in(p, t));
                let w = choose|w: int| 0 <= w < p.len() && p[w] == t;
                assert(s[w] == c[t]);
                assert(c[t].train_idx == t);
                assert(b[kk - 1] == s[kk - 1]);
                assert(s[kk - 1] == c[p[kk - 1]]);
                if w >= kk {
                    if w > kk - 1 {
                        assert(rank_lt(
                            s[kk - 1].distance as int,
                            p[kk - 1],
                            s[w].distance as int,
                            p[w],
                        ));
                    }
                }
                assert(w < kk);
                assert(b[w] == s[w]);
            }
        }
        result.push(best);
        qi = qi + 1;
    }
    result
}

impl Default for BruteForceMatcher {
    /// A matcher with the default maximum distance.
    fn default() -> (m: Self)
        ensures
            m.max_distance == DEFAULT_MAX_DISTANCE,
    {
        Self::new()
    }
}

/// Descriptors that are pairwise different.
pub open spec fn all_distinct(s: Seq<OrbDescriptor>) -> bool {
    forall|i: int, j: int| 0 <= i < j < s.len() ==> s[i].data@ != s[j].data@
}

proof fn lemma_self_nearest(s: Seq<OrbDescriptor>, i: int, n: int)
    requires
        all_distinct(s),
        0 <= i < n <= s.len(),
    ensures
        nearest_index(s[i], s, n) == i,
        descriptor_distance(s[i], s[i]) == 0,
    decreases n,
{
    lemma_distance_zero_iff_equal(s[i], s[i]);
    if n > 1 {
        if i < n - 1 {
            lemma_self_nearest(s, i, n - 1);
            lemma_distance_zero_iff_equal(s[i], s[n - 1]);
        } else {
            lemma_nearest_index(s[i], s, n - 1);
            let b = nearest_index(s[i], s, n - 1);
            lemma_distance_zero_iff_equal(s[i], s[b]);
        }
    }
}

proof fn lemma_self_matches_prefix(s: Seq<OrbDescriptor>, max: u32, n: int)
    requires
        all_distinct(s),
        0 <= n <= s.len(),
        s.len() <= usize::MAX,
    ensures
        best_matches_prefix(s, s, max, n).len() == n,
        forall|i: int|
            0 <= i < n ==> #[trigger] best_matches_prefix(s, s, max, n)[i] == (Match {
                distance: 0,
                query_idx: i as usize,
                train_idx: i as usize,
            }),
    decreases n,
{
    if n > 0 {
        lemma_self_matches_prefix(s, max, n - 1);
        lemma_self_nearest(s, n - 1, s.len() as int);
        let prev = best_matches_prefix(s, s, max, n - 1);
        assert forall|i: int| 0 <= i < n - 1 implies #[trigger] best_matches_prefix(s, s, max, n)[i]
            == prev[i] by {}
    }
}

/// Matching a set of pairwise different descriptors against itself matches
/// every descriptor to itself at distance 0, whatever the threshold.
pub proof fn lemma_self_match(s: Seq<OrbDescriptor>, max: u32)
    requires
        all_distinct(s),
        s.len() <= usize::MAX,
    ensures
        brute_force_matches(s, s, max).len() == s.len(),
        forall|i: int|
            0 <= i < s.len() ==> #[trigger] brute_force_matches(s, s, max)[i] == (Match {
                distance: 0,
                query_idx: i as usize,
                train_idx: i as usize,
            }),
{
    if s.len() > 0 {
        lemma_self_matches_prefix(s, max, s.len() as int);
    }
}

/// Cross-checked matches are a subsequence of the plain matches: each kept
/// match is one of them, and there are no more of them.
pub proof fn lemma_cross_check_subset(
    query: Seq<OrbDescriptor>,
    train: Seq<OrbDescriptor>,
    max: u32,
)
    ensures
        cross_check_matches(query, train, max).len() <= brute_force_matches(query, train, max).len(),
        forall|i: int|
            0 <= i < cross_check_matches(query, train, max).len() ==> brute_force_matches(
                query,
                train,
                max,
            ).contains(#[trigger] cross_check_matches(query, train, max)[i]),
{
    let fwd = brute_force_matches(query, train, max);
    lemma_cross_prefix_subset(fwd, query, train, fwd.len() as int);
}

proof fn lemma_cross_prefix_subset(
    fwd: Seq<Match>,
    query: Seq<OrbDescriptor>,
    train: Seq<OrbDescriptor>,
    n: int,
)
    requires
        0 <= n <= fwd.len(),
    ensures
        cross_checked_prefix(fwd, query, train, n).len() <= n,
        forall|i: int|
            0 <= i < cross_checked_prefix(fwd, query, train, n).len() ==> fwd.take(n).contains(
                #[trigger] cross_checked_prefix(fwd, query, train, n)[i],
            ),
    decreases n,
{
    if n > 0 {
        lemma_cross_prefix_subset(fwd, query, train, n - 1);
        let prev = cross_checked_prefix(fwd, query, train, n - 1);
        let cur = cross_checked_prefix(fwd, query, train, n);
        assert forall|i: int| 0 <= i < cur.len() implies fwd.take(n).contains(#[trigger] cur[i]) by {
            if i < prev.len() {
                assert(cur[i] == prev[i]);
                let k = choose|k: int| 0 <= k < fwd.take(n - 1).len() && #[trigger] fwd.take(n - 1)[k] == prev[i];
                assert(fwd.take(n)[k] == prev[i]);
            } else {
                assert(cur[i] == fwd[n - 1]);
                assert(fwd.take(n)[n - 1] == fwd[n - 1]);
            }
        }
    }
}

/// `k` is the first position of `s` at the smallest distance from `d`.
pub open spec fn first_nearest(d: OrbDescriptor, s: Seq<OrbDescriptor>, k: int) -> bool {
    &&& 0 <= k < s.len()
    &&& forall|j: int|
        0 <= j < s.len() ==> descriptor_distance(d, s[k]) <= #[trigger] descriptor_distance(d, s[j])
    &&& forall|j: int|
        0 <= j < k ==> descriptor_distance(d, s[k]) < #[trigger] descriptor_distance(d, s[j])
}

proof fn lemma_first_nearest_is_nearest_index(d: OrbDescriptor, s: Seq<OrbDescriptor>, k: int)
    requires
        s.len() >= 1,
    ensures
        first_nearest(d, s, k) <==> k == nearest_index(d, s, s.len() as int),
{
    lemma_nearest_index(d, s, s.len() as int);
    let n = nearest_index(d, s, s.len() as int);
    if first_nearest(d, s, k) && k != n {
        if k < n {
            assert(descriptor_distance(d, s[n]) < descriptor_distance(d, s[k]));
        } else {
            assert(descriptor_distance(d, s[k]) < descriptor_distance(d, s[n]));
        }
    }
}

proof fn lemma_cross_prefix_sound(
    fwd: Seq<Match>,
    query: Seq<OrbDescriptor>,
    train: Seq<OrbDescriptor>,
    n: int,
)
    requires
        0 <= n <= fwd.len(),
    ensures
        forall|i: int|
            0 <= i < cross_checked_prefix(fwd, query, train, n).len() ==> passes_cross_check(
                query,
                train,
                #[trigger] cross_checked_prefix(fwd, query, train, n)[i],
            ),
        forall|k: int|
            0 <= k < n && passes_cross_check(query, train, #[trigger] fwd[k])
                ==> cross_checked_prefix(fwd, query, train, n).contains(fwd[k]),
    decreases n,
{
    if n > 0 {
        lemma_cross_prefix_sound(fwd, query, train, n - 1);
        let prev = cross_checked_prefix(fwd, query, train, n - 1);
        let cur = cross_checked_prefix(fwd, query, train, n);
        assert forall|i: int| 0 <= i < prev.len() implies cur[i] == prev[i] by {}
        assert forall|k: int|
            0 <= k < n && passes_cross_check(query, train, #[trigger] fwd[k]) implies cur.contains(
            fwd[k],
        ) by {
            if k < n - 1 {
                let j = choose|j: int| 0 <= j < prev.len() && prev[j] == fwd[k];
                assert(cur[j] == prev[j]);
            } else {
                assert(cur[cur.len() - 1] == fwd[k]);
            }
        }
    }
}

/// Cross-checked matching keeps exactly the mutual nearest neighbours
/// within the threshold: every kept match pairs a query descriptor with the
/// first train descriptor nearest to it, that train descriptor's first
/// nearest query descriptor over the whole query set is the same query, and
/// their distance is within `max`; and every such mutual pair is kept.
pub proof fn lemma_cross_check_keeps_mutual_nearest(
    query: Seq<OrbDescriptor>,
    train: Seq<OrbDescriptor>,
    max: u32,
)
    requires
        query.len() <= usize::MAX,
        train.len() <= usize::MAX,
    ensures
        forall|i: int|
            0 <= i < cross_check_matches(query, train, max).len() ==> {
                let m = #[trigger] cross_check_matches(query, train, max)[i];
                &&& m.distance == descriptor_distance(
                    query[m.query_idx as int],
                    train[m.train_idx as int],
                )
                &&& m.distance <= max
                &&& first_nearest(query[m.query_idx as int], train, m.train_idx as int)
                &&& first_nearest(train[m.train_idx as int], query, m.query_idx as int)
            },
        forall|q: int, t: int|
            first_nearest(query[q], train, t) && first_nearest(train[t], query, q)
                && #[trigger] descriptor_distance(query[q], train[t]) <= max
                ==> cross_check_matches(query, train, max).contains(
                Match {
                    query_idx: q as usize,
                    train_idx: t as usize,
                    distance: descriptor_distance(query[q], train[t]) as u32,
                },
            ),
{
    let fwd = brute_force_matches(query, train, max);
    let r = cross_check_matches(query, train, max);
    lemma_cross_prefix_sound(fwd, query, train, fwd.len() as int);
    lemma_cross_prefix_subset(fwd, query, train, fwd.len() as int);
    if query.len() > 0 && train.len() > 0 {
        lemma_best_prefix_valid(query, train, max, query.len() as int);
    }
    assert forall|i: int| 0 <= i < r.len() implies {
        let m = #[trigger] r[i];
        &&& m.distance == descriptor_distance(query[m.query_idx as int], train[m.train_idx as int])
        &&& m.distance <= max
        &&& first_nearest(query[m.query_idx as int], train, m.train_idx as int)
        &&& first_nearest(train[m.train_idx as int], query, m.query_idx as int)
    } by {
        let m = r[i];
        assert(fwd.take(fwd.len() as int).contains(m));
        let k = choose|k: int| 0 <= k < fwd.take(fwd.len() as int).len() && fwd.take(fwd.len() as int)[k] == m;
        assert(fwd[k] == m);
        assert(query.len() > 0 && train.len() > 0);
        lemma_first_nearest_is_nearest_index(query[m.query_idx as int], train, m.train_idx as int);
        lemma_first_nearest_is_nearest_index(train[m.train_idx as int], query, m.query_idx as int);
    }
    assert forall|q: int, t: int|
        first_nearest(query[q], train, t) && first_nearest(train[t], query, q)
            && #[trigger] descriptor_distance(query[q], train[t]) <= max implies r.contains(
        Match {
            query_idx: q as usize,
            train_idx: t as usize,
            distance: descriptor_distance(query[q], train[t]) as u32,
        },
    ) by {
        lemma_first_nearest_is_nearest_index(query[q], train, t);
        lemma_first_nearest_is_nearest_index(train[t], query, q);
        let m = best_match(query, train, max, q);
        assert(m is Some);
        assert(m->0 == Match {
            query_idx: q as usize,
            train_idx: t as usize,
            distance: descriptor_distance(query[q], train[t]) as u32,
        });
        assert(fwd.contains(m->0));
        let k = choose|k: int| 0 <= k < fwd.len() && fwd[k] == m->0;
        assert(passes_cross_check(query, train, fwd[k]));
    }
}

/// Sum of the distances of the first `n` matches.
pub open spec fn distance_sum(ms: Seq<Match>, n: int) -> int
    decreases n,
{
    if n <= 0 {
        0
    } else {
        distance_sum(ms, n - 1) + ms[n - 1].distance
    }
}

/// Distance statistics of a non-empty set of matches: the smallest, largest
/// and median distance (the middle one, at position `len / 2`, once the
/// matches are stably sorted by distance) and the sum of all distances.
pub fn match_distance_stats(matches: &[Match]) -> (r: (u32, u32, u32, u64))
    requires
        1 <= matches@.len() <= 0xffff_ffff,
    ensures
        r.3 == distance_sum(matches@, matches@.len() as int),
        exists|s: Seq<Match>, p: Seq<int>|
            stably_sorted_by(matches@, s, p) && r.0 == s[0].distance && r.1 == s[s.len() - 1].distance
                && r.2 == s[(s.len() / 2) as int].distance,
        forall|i: int|
            0 <= i < matches@.len() ==> r.0 <= (#[trigger] matches@[i]).distance <= r.1,
        r.0 <= r.2 <= r.1,
{
    let (sorted, Ghost(p)) = stable_sorted(matches);
    let n = sorted.len();
    let min_d = sorted[0].distance;
    let max_d = sorted[n - 1].distance;
    let median = sorted[n / 2].distance;
    proof {
        assert forall|i: int| 0 <= i < matches@.len() implies min_d <= (#[trigger] matches@[i]).distance
            <= max_d by {
            assert(appears_in(p, i));
            let k = choose|k: int| 0 <= k < p.len() && p[k] == i;
            assert(sorted@[k] == matches@[i]);
            if k > 0 {
                assert(sorted@[0].distance <= sorted@[k].distance);
            }
            if k < n - 1 {
                assert(sorted@[k].distance <= sorted@[n - 1].distance);
            }
        }
        if n / 2 > 0 {
            assert(sorted@[0].distance <= sorted@[(n / 2) as int].distance);
        }
        if n / 2 < n - 1 {
            assert(sorted@[(n / 2) as int].distance <= sorted@[n - 1].distance);
        }
    }
    let mut sum: u64 = 0;
    let mut i: usize = 0;
    while i < matches.len()
        invariant
            0 <= i <= matches@.len(),
            matches@.len() <= 0xffff_ffff,
            sum == distance_sum(matches@, i as int),
            sum <= i * 0xffff_ffff,
        decreases matches@.len() - i,
    {
        proof {
            assert((i + 1) * 0xffff_ffff <= 0x1_0000_0000 * 0xffff_ffff) by (nonlinear_arith)
                requires
                    i + 1 <= 0x1_0000_0000,
            ;
        }
        sum = sum + matches[i].distance as u64;
        i = i + 1;
    }
    (min_d, max_d, median, sum)
}

} // verus!
