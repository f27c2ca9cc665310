//! Non-maximum suppression of detected corners.
//!
//! Corners are ordered by score, strongest first, with equal scores kept in
//! their input order; weaker corners close to stronger kept ones are dropped.

use vstd::prelude::*;
use crate::features::fast::Corner;

verus! {

/// Squared Euclidean distance between two corners.
pub open spec fn dist2(a: Corner, b: Corner) -> int {
    (a.x - b.x) * (a.x - b.x) + (a.y - b.y) * (a.y - b.y)
}

/// Squared distance, computed without overflow.
fn corner_dist2(a: &Corner, b: &Corner) -> (d: u128)
    ensures
        d == dist2(*a, *b),
{
    let dx: u64 = if a.x >= b.x { (a.x - b.x) as u64 } else { (b.x - a.x) as u64 };
    let dy: u64 = if a.y >= b.y { (a.y - b.y) as u64 } else { (b.y - a.y) as u64 };
    proof {
        lemma_square_fits(dx);
        lemma_square_fits(dy);
    }
    let dx2: u64 = dx * dx;
    let dy2: u64 = dy * dy;
    proof {
        assert(dx2 == (a.x - b.x) * (a.x - b.x)) by (nonlinear_arith)
            requires
                dx2 == dx * dx,
                dx == a.x - b.x || dx == b.x - a.x,
        ;
        assert(dy2 == (a.y - b.y) * (a.y - b.y)) by (nonlinear_arith)
            requires
                dy2 == dy * dy,
                dy == a.y - b.y || dy == b.y - a.y,
        ;
    }
    dx2 as u128 + dy2 as u128
}

proof fn lemma_square_fits(v: u64)
    requires
        v <= 0xffff_ffff,
    ensures
        v * v <= u64::MAX,
{
    assert(v * v <= 0xffff_ffff * 0xffff_ffff) by (nonlinear_arith)
        requires
            v <= 0xffff_ffff,
    ;
}

/// Position at which an item with key `k` goes into `s`: before the first
/// item whose key is smaller, so after every item with a larger or equal key
/// that precedes it.
pub open spec fn ins_pos(s: Seq<(u64, Corner)>, k: u64) -> int
    decreases s.len(),
{
    if s.len() == 0 {
        0
    } else if s[0].0 < k {
        0
    } else {
        1 + ins_pos(s.drop_first(), k)
    }
}

/// `s` with `x` inserted at its position.
pub open spec fn insert_desc(s: Seq<(u64, Corner)>, x: (u64, Corner)) -> Seq<(u64, Corner)> {
    s.insert(ins_pos(s, x.0), x)
}

/// `s` sorted by key, largest first; items with equal keys keep their order.
pub open spec fn sort_desc(s: Seq<(u64, Corner)>) -> Seq<(u64, Corner)>
    decreases s.len(),
{
    if s.len() == 0 {
        s
    } else {
        insert_desc(sort_desc(s.drop_last()), s.last())
    }
}

/// Keys are non-increasing.
pub open spec fn keys_descending(s: Seq<(u64, Corner)>) -> bool {
    forall|i: int, j: int| 0 <= i < j < s.len() ==> s[i].0 >= s[j].0
}

/// The corners keyed by their score.
pub open spec fn by_score(s: Seq<Corner>) -> Seq<(u64, Corner)> {
    s.map_values(|c: Corner| (c.score_sum as u64, c))
}

proof fn lemma_ins_pos_bounds(s: Seq<(u64, Corner)>, k: u64)
    ensures
        0 <= ins_pos(s, k) <= s.len(),
        forall|m: int| 0 <= m < ins_pos(s, k) ==> s[m].0 >= k,
        ins_pos(s, k) < s.len() ==> s[ins_pos(s, k)].0 < k,
    decreases s.len(),
{
    if s.len() > 0 && s[0].0 >= k {
        lemma_ins_pos_bounds(s.drop_first(), k);
        assert forall|m: int| 0 <= m < ins_pos(s, k) implies s[m].0 >= k by {
            if m > 0 {
                assert(s[m] == s.drop_first()[m - 1]);
            }
        }
    }
}

proof fn lemma_ins_pos_is(s: Seq<(u64, Corner)>, k: u64, j: int)
    requires
        0 <= j <= s.len(),
        forall|m: int| 0 <= m < j ==> s[m].0 >= k,
        j == s.len() || s[j].0 < k,
    ensures
        ins_pos(s, k) == j,
    decreases j,
{
    if j > 0 {
        let t = s.drop_first();
        assert forall|m: int| 0 <= m < j - 1 implies t[m].0 >= k by {
            assert(t[m] == s[m + 1]);
        }
        if j < s.len() {
            assert(t[j - 1] == s[j]);
        }
        lemma_ins_pos_is(t, k, j - 1);
    }
}

/// The sort keeps the length, holds every item of its input and only those,
/// and orders the keys from largest to smallest.
pub proof fn lemma_sort_desc(s: Seq<(u64, Corner)>)
    ensures
        sort_desc(s).len() == s.len(),
        keys_descending(sort_desc(s)),
        forall|i: int| 0 <= i < s.len() ==> sort_desc(s).contains(#[trigger] s[i]),
        forall|i: int| 0 <= i < s.len() ==> s.contains(#[trigger] sort_desc(s)[i]),
    decreases s.len(),
{
    if s.len() > 0 {
        let p = s.drop_last();
        let x = s.last();
        lemma_sort_desc(p);
        let sp = sort_desc(p);
        lemma_ins_pos_bounds(sp, x.0);
        let pos = ins_pos(sp, x.0);
        let r = sp.insert(pos, x);
        assert(r =~= sort_desc(s));
        assert forall|i: int, j: int| 0 <= i < j < r.len() implies r[i].0 >= r[j].0 by {
            if j < pos {
            } else if j == pos {
                assert(r[i] == sp[i]);
            } else if i < pos {
                assert(r[j] == sp[j - 1]);
                if j - 1 >= pos {
                    assert(sp[pos].0 < x.0);
                    if i < pos {
                        assert(sp[i].0 >= x.0);
                    }
                }
            } else if i == pos {
                assert(r[j] == sp[j - 1]);
                assert(sp[pos].0 < x.0);
                if j - 1 > pos {
                    assert(sp[pos].0 >= sp[j - 1].0);
                }
            } else {
                assert(r[i] == sp[i - 1]);
                assert(r[j] == sp[j - 1]);
            }
        }
        assert forall|i: int| 0 <= i < s.len() implies r.contains(#[trigger] s[i]) by {
            if i == s.len() - 1 {
                assert(r[pos] == x);
            } else {
                assert(s[i] == p[i]);
                assert(sp.contains(p[i]));
                let k = choose|k: int| 0 <= k < sp.len() && #[trigger] sp[k] == p[i];
                if k < pos {
                    assert(r[k] == sp[k]);
                } else {
                    assert(r[k + 1] == sp[k]);
                }
            }
        }
        assert forall|i: int| 0 <= i < r.len() implies s.contains(#[trigger] r[i]) by {
            if i == pos {
                assert(s[s.len() - 1] == x);
            } else {
                let k = if i < pos { i } else { i - 1 };
                assert(r[i] == sp[k]);
                assert(p.contains(sp[k]));
                let m = choose|m: int| 0 <= m < p.len() && #[trigger] p[m] == sp[k];
                assert(s[m] == p[m]);
            }
        }
    }
}

/// Stable sort by key, largest first.
fn sort_by_key_desc(items: &Vec<(u64, Corner)>) -> (r: Vec<(u64, Corner)>)
    ensures
        r@ == sort_desc(items@),
        r@.len() == items@.len(),
{
    let mut out: Vec<(u64, Corner)> = Vec::new();
    let mut i: usize = 0;
    while i < items.len()
        invariant
            0 <= i <= items@.len(),
            out@ == sort_desc(items@.take(i as int)),
            out@.len() == i,
        decreases items@.len() - i,
    {
        let x = items[i];
        let mut j: usize = 0;
        while j < out.len() && out[j].0 >= x.0
            invariant
                0 <= j <= out@.len(),
                forall|m: int| 0 <= m < j ==> out@[m].0 >= x.0,
            decreases out@.len() - j,
        {
            j = j + 1;
        }
        proof {
            lemma_ins_pos_is(out@, x.0, j as int);
            let t = items@.take(i + 1);
            assert(t.drop_last() =~= items@.take(i as int));
            assert(t.last() == x);
        }
        out.insert(j, x);
        i = i + 1;
    }
    proof {
        assert(items@.take(items@.len() as int) =~= items@);
    }
    out
}

/// A vector holding the corners of a slice.
fn copy_corners(corners: &[Corner]) -> (r: Vec<Corner>)
    ensures
        r@ == corners@,
{
    let mut out: Vec<Corner> = Vec::new();
    let mut i: usize = 0;
    while i < corners.len()
        invariant
            0 <= i <= corners@.len(),
            out@ == corners@.take(i as int),
        decreases corners@.len() - i,
    {
        out.push(corners[i]);
        proof {
            assert(out@ =~= corners@.take(i + 1));
        }
        i = i + 1;
    }
    proof {
        assert(corners@.take(corners@.len() as int) =~= corners@);
    }
    out
}

/// Pair each corner with its score.
fn keyed_by_score(corners: &[Corner]) -> (r: Vec<(u64, Corner)>)
    ensures
        r@ == by_score(corners@),
{
    let mut out: Vec<(u64, Corner)> = Vec::new();
    let mut i: usize = 0;
    while i < corners.len()
        invariant
            0 <= i <= corners@.len(),
            out@.len() == i,
            forall|m: int| 0 <= m < i ==> #[trigger] out@[m] == (corners@[m].score_sum as u64, corners@[m]),
        decreases corners@.len() - i,
    {
        let c = corners[i];
        out.push((c.score_sum as u64, c));
        i = i + 1;
    }
    proof {
        assert(out@ =~= by_score(corners@));
    }
    out
}

/// Every corner of `kept` is farther than `sqrt(r2)` from `c`.
pub open spec fn far_from_all(kept: Seq<Corner>, c: Corner, r2: int) -> bool {
    forall|k: int| 0 <= k < kept.len() ==> dist2(#[trigger] kept[k], c) > r2
}

/// Greedy suppression over the first `n` items of `t`: an item is kept when
/// it is farther than `sqrt(r2)` from every item kept before it.
pub open spec fn greedy_keep(t: Seq<(u64, Corner)>, n: int, r2: int) -> Seq<Corner>
    decreases n,
{
    if n <= 0 {
        seq![]
    } else {
        let prev = greedy_keep(t, n - 1, r2);
        if far_from_all(prev, t[n - 1].1, r2) {
            prev.push(t[n - 1].1)
        } else {
            prev
        }
    }
}

/// The corners kept by non-maximum suppression with the given radius.
pub open spec fn nms_kept(corners: Seq<Corner>, radius: int) -> Seq<Corner> {
    greedy_keep(sort_desc(by_score(corners)), corners.len() as int, radius * radius)
}

/// Every key is the score of its corner.
pub open spec fn keyed_by_own_score(t: Seq<(u64, Corner)>) -> bool {
    forall|m: int| 0 <= m < t.len() ==> #[trigger] t[m].0 == t[m].1.score_sum
}

proof fn lemma_greedy_separated(t: Seq<(u64, Corner)>, n: int, r2: int)
    requires
        0 <= n <= t.len(),
    ensures
        forall|i: int, j: int|
            0 <= i < j < greedy_keep(t, n, r2).len() ==> dist2(
                #[trigger] greedy_keep(t, n, r2)[i],
                #[trigger] greedy_keep(t, n, r2)[j],
            ) > r2,
    decreases n,
{
    if n > 0 {
        lemma_greedy_separated(t, n - 1, r2);
        let prev = greedy_keep(t, n - 1, r2);
        let out = greedy_keep(t, n, r2);
        let c = t[n - 1].1;
        if far_from_all(prev, c, r2) {
            assert forall|i: int, j: int| 0 <= i < j < out.len() implies dist2(
                #[trigger] out[i],
                #[trigger] out[j],
            ) > r2 by {
                assert(out[i] == prev[i]);
                if j < prev.len() {
                    assert(out[j] == prev[j]);
                } else {
                    assert(out[j] == c);
                    assert(dist2(prev[i], c) > r2);
                }
            }
        }
    }
}

proof fn lemma_greedy_covers(t: Seq<(u64, Corner)>, n: int, r2: int)
    requires
        0 <= n <= t.len(),
        r2 >= 0,
    ensures
        forall|m: int|
            0 <= m < n ==> exists|k: int|
                0 <= k < greedy_keep(t, n, r2).len() && dist2(
                    greedy_keep(t, n, r2)[k],
                    #[trigger] t[m].1,
                ) <= r2,
    decreases n,
{
    if n > 0 {
        lemma_greedy_covers(t, n - 1, r2);
        let prev = greedy_keep(t, n - 1, r2);
        let out = greedy_keep(t, n, r2);
        let c = t[n - 1].1;
        assert(dist2(c, c) == 0);
        if far_from_all(prev, c, r2) {
            assert forall|m: int| 0 <= m < n implies exists|k: int|
                0 <= k < out.len() && dist2(out[k], #[trigger] t[m].1) <= r2 by {
                if m < n - 1 {
                    let k = choose|k: int| 0 <= k < prev.len() && dist2(prev[k], t[m].1) <= r2;
                    assert(out[k] == prev[k]);
                } else {
                    assert(out[prev.len() as int] == c);
                }
            }
        } else {
            let k0 = choose|k: int| 0 <= k < prev.len() && !(dist2(#[trigger] prev[k], c) > r2);
            assert forall|m: int| 0 <= m < n implies exists|k: int|
                0 <= k < out.len() && dist2(out[k], #[trigger] t[m].1) <= r2 by {
                if m == n - 1 {
                    assert(dist2(out[k0], t[m].1) <= r2);
                }
            }
        }
    }
}

proof fn lemma_greedy_from_input(t: Seq<(u64, Corner)>, n: int, r2: int)
    requires
        0 <= n <= t.len(),
    ensures
        forall|k: int|
            0 <= k < greedy_keep(t, n, r2).len() ==> exists|m: int|
                0 <= m < n && t[m].1 == #[trigger] greedy_keep(t, n, r2)[k],
    decreases n,
{
    if n > 0 {
        lemma_greedy_from_input(t, n - 1, r2);
        let prev = greedy_keep(t, n - 1, r2);
        let out = greedy_keep(t, n, r2);
        assert forall|k: int| 0 <= k < out.len() implies exists|m: int|
            0 <= m < n && t[m].1 == #[trigger] out[k] by {
            if k < prev.len() {
                assert(out[k] == prev[k]);
                let m = choose|m: int| 0 <= m < n - 1 && t[m].1 == prev[k];
                assert(t[m].1 == out[k]);
            } else {
                assert(t[n - 1].1 == out[k]);
            }
        }
    }
}

proof fn lemma_greedy_ordered(t: Seq<(u64, Corner)>, n: int, r2: int)
    requires
        0 <= n <= t.len(),
        keys_descending(t),
        keyed_by_own_score(t),
    ensures
        forall|i: int, j: int|
            0 <= i < j < greedy_keep(t, n, r2).len() ==> (#[trigger] greedy_keep(t, n, r2)[i]).score_sum
                >= (#[trigger] greedy_keep(t, n, r2)[j]).score_sum,
    decreases n,
{
    if n > 0 {
        lemma_greedy_ordered(t, n - 1, r2);
        lemma_greedy_from_input(t, n - 1, r2);
        let prev = greedy_keep(t, n - 1, r2);
        let out = greedy_keep(t, n, r2);
        let c = t[n - 1].1;
        if far_from_all(prev, c, r2) {
            assert forall|i: int, j: int| 0 <= i < j < out.len() implies (#[trigger] out[i]).score_sum
                >= (#[trigger] out[j]).score_sum by {
                assert(out[i] == prev[i]);
                if j < prev.len() {
                    assert(out[j] == prev[j]);
                } else {
                    let m = choose|m: int| 0 <= m < n - 1 && t[m].1 == #[trigger] prev[i];
                    assert(t[m].0 >= t[n - 1].0);
                    assert(t[m].0 == t[m].1.score_sum);
                    assert(t[n - 1].0 == t[n - 1].1.score_sum);
                }
            }
        }
    }
}

/// What non-maximum suppression keeps: the kept corners are pairwise farther
/// apart than the radius, every input corner lies within the radius of a kept
/// corner, every kept corner is an input corner, and kept corners come
/// strongest first.
pub proof fn lemma_nms_kept(corners: Seq<Corner>, radius: u32)
    ensures
        forall|i: int, j: int|
            0 <= i < j < nms_kept(corners, radius as int).len() ==> dist2(
                #[trigger] nms_kept(corners, radius as int)[i],
                #[trigger] nms_kept(corners, radius as int)[j],
            ) > radius * radius,
        forall|q: int|
            0 <= q < corners.len() ==> exists|k: int|
                0 <= k < nms_kept(corners, radius as int).len() && dist2(
                    nms_kept(corners, radius as int)[k],
                    #[trigger] corners[q],
                ) <= radius * radius,
        forall|k: int|
            0 <= k < nms_kept(corners, radius as int).len() ==> corners.contains(
                #[trigger] nms_kept(corners, radius as int)[k],
            ),
        forall|i: int, j: int|
            0 <= i < j < nms_kept(corners, radius as int).len() ==> (#[trigger] nms_kept(
                corners,
                radius as int,
            )[i]).score_sum >= (#[trigger] nms_kept(corners, radius as int)[j]).score_sum,
{
    let b = by_score(corners);
    let t = sort_desc(b);
    let n = corners.len() as int;
    let r2 = radius * radius;
    let out = nms_kept(corners, radius as int);
    assert(out == greedy_keep(t, n, r2));
    assert(r2 >= 0) by (nonlinear_arith)
        requires
            r2 == radius * radius,
    ;
    assert(t.len() == n) by {
        lemma_sort_desc(b);
    }
    assert forall|i: int, j: int| 0 <= i < j < out.len() implies dist2(
        #[trigger] out[i],
        #[trigger] out[j],
    ) > r2 by {
        lemma_greedy_separated(t, n, r2);
    }
    assert forall|q: int| 0 <= q < corners.len() implies exists|k: int|
        0 <= k < out.len() && dist2(out[k], #[trigger] corners[q]) <= r2 by {
        lemma_sort_desc(b);
        lemma_greedy_covers(t, n, r2);
        assert(b[q] == (corners[q].score_sum as u64, corners[q]));
        assert(t.contains(b[q]));
        let m = choose|m: int| 0 <= m < t.len() && t[m] == b[q];
        assert(t[m].1 == corners[q]);
    }
    assert forall|k: int| 0 <= k < out.len() implies corners.contains(#[trigger] out[k]) by {
        lemma_sort_desc(b);
        lemma_greedy_from_input(t, n, r2);
        let m = choose|m: int| 0 <= m < n && t[m].1 == out[k];
        assert(b.contains(t[m]));
        let q = choose|q: int| 0 <= q < b.len() && b[q] == t[m];
        assert(b[q] == (corners[q].score_sum as u64, corners[q]));
        assert(corners[q] == out[k]);
    }
    assert forall|i: int, j: int| 0 <= i < j < out.len() implies (#[trigger] out[i]).score_sum
        >= (#[trigger] out[j]).score_sum by {
        lemma_sort_by_score(corners);
        lemma_greedy_ordered(t, n, r2);
    }
}

/// Sorting corners keyed by score keeps every key equal to its corner's
/// score and orders the keys from largest to smallest.
proof fn lemma_sort_by_score(corners: Seq<Corner>)
    ensures
        keys_descending(sort_desc(by_score(corners))),
        keyed_by_own_score(sort_desc(by_score(corners))),
{
    let b = by_score(corners);
    let t = sort_desc(b);
    lemma_sort_desc(b);
    assert forall|m: int| 0 <= m < t.len() implies #[trigger] t[m].0 == t[m].1.score_sum by {
        assert(b.contains(t[m]));
        let q = choose|q: int| 0 <= q < b.len() && b[q] == t[m];
        assert(b[q] == (corners[q].score_sum as u64, corners[q]));
    }
}

/// Apply non-maximum suppression to a set of corners.
///
/// Corners are taken strongest first (equal scores in input order); each is
/// kept unless it lies within `radius` of a corner kept before it. With no
/// corners or a zero radius the input is returned as it is.
pub fn non_maximum_suppression(corners: &[Corner], radius: u32) -> (r: Vec<Corner>)
    ensures
        corners@.len() == 0 || radius == 0 ==> r@ == corners@,
        !(corners@.len() == 0 || radius == 0) ==> r@ == nms_kept(corners@, radius as int),
{
    if corners.len() == 0 || radius == 0 {
        return copy_corners(corners);
    }
    let rw: u64 = radius as u64;
    proof {
        lemma_square_fits(rw);
    }
    let r2: u128 = (rw * rw) as u128;
    let keyed = keyed_by_score(corners);
    let sorted = sort_by_key_desc(&keyed);
    let mut result: Vec<Corner> = Vec::new();
    let mut i: usize = 0;
    while i < sorted.len()
        invariant
            0 <= i <= sorted@.len(),
            r2 == radius * radius,
            result@ == greedy_keep(sorted@, i as int, r2 as int),
        decreases sorted@.len() - i,
    {
        let c = sorted[i].1;
        let mut far = true;
        let mut k: usize = 0;
        while k < result.len()
            invariant
                0 <= k <= result@.len(),
                far == (forall|m: int| 0 <= m < k ==> dist2(#[trigger] result@[m], c) > r2),
            decreases result@.len() - k,
        {
            let d = corner_dist2(&result[k], &c);
            if d <= r2 {
                far = false;
            }
            k = k + 1;
        }
        if far {
            result.push(c);
        }
        i = i + 1;
    }
    result
}

/// Number of cells of size `cell` needed to cover `len` pixels.
pub open spec fn cells_for(len: int, cell: int) -> int {
    len / cell + (if len % cell == 0 { 0int } else { 1 })
}

/// Grid cell of a corner: its column and row of size `cell`, clamped to the
/// last column and row, numbered row by row.
pub open spec fn grid_cell(c: Corner, cell: int, cols: int, rows: int) -> int {
    let col = if (c.x as int) / cell < cols - 1 { (c.x as int) / cell } else { cols - 1 };
    let row = if (c.y as int) / cell < rows - 1 { (c.y as int) / cell } else { rows - 1 };
    row * cols + col
}

/// The best corner of cell `g` among the first `n` corners: the first one
/// with the highest score.
pub open spec fn cell_best(
    s: Seq<Corner>,
    n: int,
    cell: int,
    cols: int,
    rows: int,
    g: int,
) -> Option<Corner>
    decreases n,
{
    if n <= 0 {
        None
    } else {
        let prev = cell_best(s, n - 1, cell, cols, rows, g);
        if grid_cell(s[n - 1], cell, cols, rows) == g && (match prev {
            Some(e) => e.score_sum < s[n - 1].score_sum,
            None => true,
        }) {
            Some(s[n - 1])
        } else {
            prev
        }
    }
}

/// The best corners of cells `0..m`, in cell order, skipping empty cells.
pub open spec fn grid_kept(s: Seq<Corner>, cell: int, cols: int, rows: int, m: int) -> Seq<Corner>
    decreases m,
{
    if m <= 0 {
        seq![]
    } else {
        let prev = grid_kept(s, cell, cols, rows, m - 1);
        match cell_best(s, s.len() as int, cell, cols, rows, m - 1) {
            Some(c) => prev.push(c),
            None => prev,
        }
    }
}

/// Apply non-maximum suppression with a grid: the image is divided into
/// cells of `cell_size` pixels (corners past the last column or row count in
/// it) and the first strongest corner of each cell is kept, in cell order.
/// With no corners or a zero cell size the input is returned as it is.
pub fn non_maximum_suppression_grid(
    corners: &[Corner],
    width: u32,
    height: u32,
    cell_size: u32,
) -> (r: Vec<Corner>)
    requires
        corners@.len() > 0 && cell_size > 0 ==> width > 0 && height > 0 && cells_for(
            width as int,
            cell_size as int,
        ) * cells_for(height as int, cell_size as int) <= u32::MAX,
    ensures
        corners@.len() == 0 || cell_size == 0 ==> r@ == corners@,
        !(corners@.len() == 0 || cell_size == 0) ==> r@ == grid_kept(
            corners@,
            cell_size as int,
            cells_for(width as int, cell_size as int),
            cells_for(height as int, cell_size as int),
            cells_for(width as int, cell_size as int) * cells_for(height as int, cell_size as int),
        ),
{
    if corners.len() == 0 || cell_size == 0 {
        return copy_corners(corners);
    }
    proof {
        lemma_cells_fit(width, cell_size);
        lemma_cells_fit(height, cell_size);
    }
    let cols: u32 = width / cell_size + if width % cell_size == 0 { 0 } else { 1 };
    let rows: u32 = height / cell_size + if height % cell_size == 0 { 0 } else { 1 };
    let ghost cell = cell_size as int;
    proof {
        assert(cols >= 1 && rows >= 1);
    }
    let grid_size: usize = (cols * rows) as usize;
    let mut best: Vec<Option<Corner>> = Vec::new();
    let mut g: usize = 0;
    while g < grid_size
        invariant
            0 <= g <= grid_size,
            best@.len() == g,
            forall|h: int| 0 <= h < g ==> #[trigger] best@[h] == cell_best(corners@, 0, cell, cols as int, rows as int, h),
        decreases grid_size - g,
    {
        best.push(None);
        g = g + 1;
    }
    let mut i: usize = 0;
    while i < corners.len()
        invariant
            0 <= i <= corners@.len(),
            cols >= 1,
            rows >= 1,
            cell == cell_size,
            cell_size > 0,
            grid_size == cols * rows,
            cols * rows <= u32::MAX,
            best@.len() == grid_size,
            forall|h: int| 0 <= h < grid_size ==> #[trigger] best@[h] == cell_best(corners@, i as int, cell, cols as int, rows as int, h),
        decreases corners@.len() - i,
    {
        let c = corners[i];
        let cx = c.x / cell_size;
        let col: u32 = if cx < cols - 1 { cx } else { cols - 1 };
        let cy = c.y / cell_size;
        let row: u32 = if cy < rows - 1 { cy } else { rows - 1 };
        proof {
            assert(row * cols + col <= (rows - 1) * cols + cols - 1) by (nonlinear_arith)
                requires
                    row <= rows - 1,
                    col <= cols - 1,
                    cols >= 1,
            ;
            assert((rows - 1) * cols + cols - 1 == rows * cols - 1) by (nonlinear_arith);
            assert(rows * cols == cols * rows) by (nonlinear_arith);
        }
        let idx: usize = (row * cols + col) as usize;
        proof {
            assert(idx == grid_cell(c, cell, cols as int, rows as int));
        }
        let replace = match best[idx] {
            Some(e) => e.score_sum < c.score_sum,
            None => true,
        };
        if replace {
            best[idx] = Some(c);
        }
        proof {
            assert forall|h: int| 0 <= h < grid_size implies #[trigger] best@[h] == cell_best(
                corners@,
                i + 1,
                cell,
                cols as int,
                rows as int,
                h,
            ) by {
                assert(corners@[(i + 1) - 1] == c);
            }
        }
        i = i + 1;
    }
    let mut out: Vec<Corner> = Vec::new();
    let mut h: usize = 0;
    while h < grid_size
        invariant
            0 <= h <= grid_size,
            best@.len() == grid_size,
            forall|k: int| 0 <= k < grid_size ==> #[trigger] best@[k] == cell_best(corners@, corners@.len() as int, cell, cols as int, rows as int, k),
            out@ == grid_kept(corners@, cell, cols as int, rows as int, h as int),
        decreases grid_size - h,
    {
        match best[h] {
            Some(c) => {
                out.push(c);
            },
            None => {},
        }
        h = h + 1;
    }
    out
}

proof fn lemma_cells_fit(len: u32, cell: u32)
    requires
        cell > 0,
    ensures
        len % cell != 0 ==> len / cell < u32::MAX,
        len > 0 ==> len / cell >= 1 || len % cell != 0,
{
    assert(len == cell * (len / cell) + len % cell) by (nonlinear_arith)
        requires
            cell > 0,
    ;
    if len % cell != 0 {
        assert(cell >= 2);
        assert(len / cell <= len / 2) by (nonlinear_arith)
            requires
                cell >= 2,
        ;
    }
}

/// The best corner of a cell is one of the corners of that cell, and no
/// corner of the cell has a higher score.
pub proof fn lemma_cell_best(s: Seq<Corner>, n: int, cell: int, cols: int, rows: int, g: int)
    requires
        0 <= n <= s.len(),
    ensures
        cell_best(s, n, cell, cols, rows, g) matches Some(c) ==> {
            &&& s.contains(c)
            &&& grid_cell(c, cell, cols, rows) == g
            &&& forall|m: int|
                0 <= m < n && grid_cell(#[trigger] s[m], cell, cols, rows) == g ==> s[m].score_sum
                    <= c.score_sum
        },
        cell_best(s, n, cell, cols, rows, g) is None ==> forall|m: int|
            0 <= m < n ==> grid_cell(#[trigger] s[m], cell, cols, rows) != g,
    decreases n,
{
    if n > 0 {
        lemma_cell_best(s, n - 1, cell, cols, rows, g);
        assert(s[n - 1] == s[n - 1]);
    }
}

/// Minimum of `u32::MAX` and the squared distances from item `i` to the
/// first `j` items of `t`.
pub open spec fn min_dist_to(t: Seq<(u64, Corner)>, i: int, j: int) -> int
    decreases j,
{
    if j <= 0 {
        u32::MAX as int
    } else {
        let prev = min_dist_to(t, i, j - 1);
        let d = dist2(t[i].1, t[j - 1].1);
        if d < prev {
            d
        } else {
            prev
        }
    }
}

/// Each corner of `t` keyed by its suppression radius: the squared distance
/// to the nearest corner before it (capped at `u32::MAX`).
pub open spec fn radius_keyed(t: Seq<(u64, Corner)>) -> Seq<(u64, Corner)> {
    Seq::new(t.len(), |i: int| (min_dist_to(t, i, i) as u64, t[i].1))
}

/// The corners kept by adaptive non-maximum suppression.
pub open spec fn anms_kept(corners: Seq<Corner>, max_keypoints: int) -> Seq<Corner> {
    sort_desc(radius_keyed(sort_desc(by_score(corners)))).take(max_keypoints).map_values(
        |p: (u64, Corner)| p.1,
    )
}

proof fn lemma_min_dist_bounds(t: Seq<(u64, Corner)>, i: int, j: int)
    ensures
        0 <= min_dist_to(t, i, j) <= u32::MAX,
    decreases j,
{
    if j > 0 {
        lemma_min_dist_bounds(t, i, j - 1);
        let a = t[i].1;
        let b = t[j - 1].1;
        assert(dist2(a, b) >= 0) by (nonlinear_arith);
    }
}

proof fn lemma_min_dist_is_min(t: Seq<(u64, Corner)>, i: int, j: int)
    requires
        0 <= i < t.len(),
        0 <= j <= t.len(),
    ensures
        forall|k: int| 0 <= k < j ==> min_dist_to(t, i, j) <= #[trigger] dist2(t[i].1, t[k].1),
        min_dist_to(t, i, j) == u32::MAX || exists|k: int|
            0 <= k < j && min_dist_to(t, i, j) == #[trigger] dist2(t[i].1, t[k].1),
        min_dist_to(t, i, j) <= u32::MAX,
    decreases j,
{
    if j > 0 {
        lemma_min_dist_is_min(t, i, j - 1);
        let d = dist2(t[i].1, t[j - 1].1);
        if min_dist_to(t, i, j - 1) != u32::MAX && d >= min_dist_to(t, i, j - 1) {
            let k = choose|k: int| 0 <= k < j - 1 && min_dist_to(t, i, j - 1) == #[trigger] dist2(t[i].1, t[k].1);
            assert(min_dist_to(t, i, j) == dist2(t[i].1, t[k].1));
        }
    }
}

/// The suppression radius of the corner at position `i` of the strength
/// order `t` is its squared distance to the nearest corner before it (every
/// stronger corner, and every equally strong earlier one), capped at
/// `u32::MAX`: it is at most the squared distance to each of them, equals
/// one of those distances unless it is the cap, and is the cap for the
/// strongest corner. The corner itself is carried along unchanged.
pub proof fn lemma_radius_is_distance_to_nearest_stronger(t: Seq<(u64, Corner)>, i: int)
    requires
        0 <= i < t.len(),
    ensures
        radius_keyed(t).len() == t.len(),
        radius_keyed(t)[i].1 == t[i].1,
        forall|j: int|
            0 <= j < i ==> radius_keyed(t)[i].0 <= (t[i].1.x - (#[trigger] t[j]).1.x) * (t[i].1.x
                - t[j].1.x) + (t[i].1.y - t[j].1.y) * (t[i].1.y - t[j].1.y),
        radius_keyed(t)[i].0 == u32::MAX || exists|j: int|
            0 <= j < i && radius_keyed(t)[i].0 == (t[i].1.x - (#[trigger] t[j]).1.x) * (t[i].1.x
                - t[j].1.x) + (t[i].1.y - t[j].1.y) * (t[i].1.y - t[j].1.y),
        i == 0 ==> radius_keyed(t)[i].0 == u32::MAX,
{
    lemma_min_dist_is_min(t, i, i);
    lemma_min_dist_bounds(t, i, i);
    assert(radius_keyed(t)[i].0 == min_dist_to(t, i, i));
    assert forall|j: int| 0 <= j < i implies radius_keyed(t)[i].0 <= (t[i].1.x - (#[trigger] t[j]).1.x)
        * (t[i].1.x - t[j].1.x) + (t[i].1.y - t[j].1.y) * (t[i].1.y - t[j].1.y) by {
        assert(min_dist_to(t, i, i) <= dist2(t[i].1, t[j].1));
    }
    if radius_keyed(t)[i].0 != u32::MAX {
        let j = choose|j: int| 0 <= j < i && min_dist_to(t, i, i) == #[trigger] dist2(t[i].1, t[j].1);
        assert(radius_keyed(t)[i].0 == (t[i].1.x - t[j].1.x) * (t[i].1.x - t[j].1.x) + (t[i].1.y
            - t[j].1.y) * (t[i].1.y - t[j].1.y));
    }
}

/// The strength order holds every input corner, strongest first.
proof fn lemma_strength_order(corners: Seq<Corner>)
    ensures
        sort_desc(by_score(corners)).len() == corners.len(),
        forall|i: int, j: int|
            0 <= i < j < corners.len() ==> (#[trigger] sort_desc(by_score(corners))[i]).1.score_sum
                >= (#[trigger] sort_desc(by_score(corners))[j]).1.score_sum,
        forall|q: int|
            #![trigger corners[q]]
            0 <= q < corners.len() ==> exists|p: int|
                0 <= p < corners.len() && #[trigger] sort_desc(by_score(corners))[p].1 == corners[q],
{
    let b = by_score(corners);
    let t = sort_desc(b);
    lemma_sort_desc(b);
    lemma_sort_by_score(corners);
    assert forall|i: int, j: int| 0 <= i < j < corners.len() implies (#[trigger] t[i]).1.score_sum
        >= (#[trigger] t[j]).1.score_sum by {
        assert(t[i].0 >= t[j].0);
        assert(t[i].0 == t[i].1.score_sum);
        assert(t[j].0 == t[j].1.score_sum);
    }
    assert forall|q: int|
        #![trigger corners[q]]
        0 <= q < corners.len() implies exists|p: int|
        0 <= p < corners.len() && #[trigger] t[p].1 == corners[q] by {
        assert(b[q] == (corners[q].score_sum as u64, corners[q]));
        assert(t.contains(b[q]));
        let p = choose|p: int| 0 <= p < t.len() && t[p] == b[q];
        assert(t[p].1 == corners[q]);
    }
}

/// Adaptive suppression keeps the corners of largest radius: with more
/// corners than `m`, it keeps `m` of them, each kept corner comes from the
/// strength order with its radius, and every corner whose radius is larger
/// than a kept corner's is kept too.
pub proof fn lemma_anms_keeps_largest_radii(corners: Seq<Corner>, m: int)
    requires
        0 <= m < corners.len(),
    ensures
        ({
            let rk = radius_keyed(sort_desc(by_score(corners)));
            let out = anms_kept(corners, m);
            &&& out.len() == m
            &&& rk.len() == corners.len()
            &&& forall|i: int, j: int|
                0 <= i < j < rk.len() ==> (#[trigger] rk[i]).1.score_sum >= (#[trigger] rk[j]).1.score_sum
            &&& forall|q: int| 0 <= q < corners.len() ==> exists|p: int|
                0 <= p < rk.len() && rk[p].1 == #[trigger] corners[q]
            &&& forall|k: int|
                0 <= k < m ==> exists|p: int|
                    0 <= p < rk.len() && rk[p].1 == #[trigger] out[k] && forall|q: int|
                        0 <= q < rk.len() && rk[q].0 > rk[p].0 ==> out.contains(#[trigger] rk[q].1)
        }),
{
    let t = sort_desc(by_score(corners));
    let rk = radius_keyed(t);
    let sd = sort_desc(rk);
    let out = anms_kept(corners, m);
    lemma_sort_desc(by_score(corners));
    lemma_sort_desc(rk);
    assert(rk.len() == corners.len());
    assert(out.len() == m);
    lemma_strength_order(corners);
    assert forall|i: int, j: int| 0 <= i < j < rk.len() implies (#[trigger] rk[i]).1.score_sum
        >= (#[trigger] rk[j]).1.score_sum by {
        assert(rk[i].1 == t[i].1 && rk[j].1 == t[j].1);
    }
    assert forall|q: int| 0 <= q < corners.len() implies exists|p: int|
        0 <= p < rk.len() && rk[p].1 == #[trigger] corners[q] by {
        let p = choose|p: int| 0 <= p < t.len() && #[trigger] t[p].1 == corners[q];
        assert(rk[p].1 == t[p].1);
    }
    assert forall|k: int| 0 <= k < m implies exists|p: int|
        0 <= p < rk.len() && rk[p].1 == #[trigger] out[k] && forall|q: int|
            0 <= q < rk.len() && rk[q].0 > rk[p].0 ==> out.contains(#[trigger] rk[q].1) by {
        assert(out[k] == sd[k].1);
        assert(rk.contains(sd[k]));
        let p = choose|p: int| 0 <= p < rk.len() && rk[p] == sd[k];
        assert forall|q: int| 0 <= q < rk.len() && rk[q].0 > rk[p].0 implies out.contains(
            #[trigger] rk[q].1,
        ) by {
            assert(sd.contains(rk[q]));
            let pos = choose|pos: int| 0 <= pos < sd.len() && sd[pos] == rk[q];
            if pos >= m {
                assert(sd[k].0 >= sd[pos].0);
            }
            assert(out[pos] == sd[pos].1);
        }
    }
}

/// Apply adaptive non-maximum suppression: corners are taken strongest first
/// (equal scores in input order), each gets as radius the squared distance to
/// the nearest stronger corner, and the `max_keypoints` corners with the
/// largest radii are returned, largest first (equal radii in strength order).
/// When there are at most `max_keypoints` corners the input is returned as it is.
pub fn adaptive_non_maximum_suppression(corners: &[Corner], max_keypoints: usize) -> (r: Vec<
    Corner,
>)
    ensures
        corners@.len() <= max_keypoints ==> r@ == corners@,
        corners@.len() > max_keypoints ==> r@ == anms_kept(corners@, max_keypoints as int),
        corners@.len() > max_keypoints ==> r@.len() == max_keypoints,
{
    if corners.len() <= max_keypoints {
        return copy_corners(corners);
    }
    let keyed = keyed_by_score(corners);
    let sorted = sort_by_key_desc(&keyed);
    let mut radii: Vec<(u64, Corner)> = Vec::new();
    let mut i: usize = 0;
    while i < sorted.len()
        invariant
            0 <= i <= sorted@.len(),
            radii@.len() == i,
            forall|m: int| 0 <= m < i ==> #[trigger] radii@[m] == radius_keyed(sorted@)[m],
        decreases sorted@.len() - i,
    {
        let c = sorted[i].1;
        let mut md: u128 = 0xffff_ffff;
        let mut j: usize = 0;
        while j < i
            invariant
                0 <= j <= i,
                i < sorted@.len(),
                c == sorted@[i as int].1,
                md == min_dist_to(sorted@, i as int, j as int),
            decreases i - j,
        {
            let d = corner_dist2(&c, &sorted[j].1);
            if d < md {
                md = d;
            }
            j = j + 1;
        }
        proof {
            lemma_min_dist_bounds(sorted@, i as int, i as int);
        }
        radii.push((md as u64, c));
        i = i + 1;
    }
    proof {
        assert(radii@ =~= radius_keyed(sorted@));
    }
    let by_radius = sort_by_key_desc(&radii);
    let mut out: Vec<Corner> = Vec::new();
    let mut k: usize = 0;
    while k < max_keypoints
        invariant
            0 <= k <= max_keypoints,
            max_keypoints < by_radius@.len(),
            out@ == by_radius@.take(k as int).map_values(|p: (u64, Corner)| p.1),
        decreases max_keypoints - k,
    {
        out.push(by_radius[k].1);
        proof {
            assert(out@ =~= by_radius@.take(k + 1).map_values(|p: (u64, Corner)| p.1));
        }
        k = k + 1;
    }
    out
}

} // verus!
