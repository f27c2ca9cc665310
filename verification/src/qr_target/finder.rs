//! Run-length scanning for QR finder patterns.
//!
//! A finder pattern crossed by a scan line shows five runs of alternating
//! color in the proportions 1:1:3:1:1. These functions split a row or a
//! column of a thresholded grayscale image into its runs and report the
//! five-run windows that the ratio test examines.

use vstd::prelude::*;

verus! {

/// Whether each of the `n` pixels from `start`, `step` apart, is light
/// (at least `threshold`).
pub open spec fn light_flags(gray: Seq<u8>, start: int, step: int, n: int, threshold: u8) -> Seq<bool> {
    Seq::new(n as nat, |i: int| gray[start + i * step] >= threshold)
}

/// The positions, in increasing order, among the first `n` flags where the
/// color differs from the one before: the ends of the completed runs.
pub open spec fn boundaries(f: Seq<bool>, n: int) -> Seq<int>
    decreases n,
{
    if n <= 1 {
        seq![]
    } else {
        let b = boundaries(f, n - 1);
        if f[n - 1] != f[n - 2] {
            b.push(n - 1)
        } else {
            b
        }
    }
}

/// Where run `k` starts, given the run ends `b`.
pub open spec fn run_start(b: Seq<int>, k: int) -> int {
    if k == 0 {
        0
    } else {
        b[k - 1]
    }
}

/// Length of the completed run `k`, given the run ends `b`.
pub open spec fn run_len(b: Seq<int>, k: int) -> int {
    b[k] - run_start(b, k)
}

/// Number of windows a row scan checks when the row has `m` run ends: one
/// at the end of every other run, from the fifth on.
pub open spec fn num_windows(m: int) -> int {
    if m >= 5 {
        (m - 3) / 2
    } else {
        0
    }
}

/// Counter slot used by the scan after `m` run ends.
pub open spec fn slot_after(m: int) -> int {
    if m <= 4 {
        m
    } else if m % 2 == 1 {
        3
    } else {
        4
    }
}

/// The `i`-th window checked by a row scan with run ends `b`: the run ending
/// at `b[4 + 2i]` and the four before it.
pub open spec fn window_ok(w: (u32, [u32; 5]), b: Seq<int>, i: int) -> bool {
    &&& w.0 == b[4 + 2 * i]
    &&& forall|j: int| 0 <= j < 5 ==> #[trigger] w.1@[j] == run_len(b, 2 * i + j)
}

/// The scan state after the first `x` flags: the counters hold the runs
/// from slot 0 up to the current one, the current one still open.
spec fn scan_state(f: Seq<bool>, x: int, idx: int, counts: Seq<u32>) -> bool {
    let b = boundaries(f, x);
    let m = b.len() as int;
    &&& counts.len() == 5
    &&& idx == slot_after(m)
    &&& forall|j: int| 0 <= j < idx ==> #[trigger] counts[j] == run_len(b, m - idx + j)
    &&& counts[idx] == x - run_start(b, m)
    &&& forall|j: int| idx < j < 5 ==> #[trigger] counts[j] == 0
}

proof fn lemma_boundaries_bounds(f: Seq<bool>, n: int)
    requires
        1 <= n <= f.len(),
    ensures
        boundaries(f, n).len() <= n - 1,
        forall|k: int| 0 <= k < boundaries(f, n).len() ==> 0 < #[trigger] boundaries(f, n)[k] < n,
        forall|k: int, l: int| 0 <= k < l < boundaries(f, n).len() ==> boundaries(f, n)[k] < boundaries(f, n)[l],
    decreases n,
{
    if n > 1 {
        lemma_boundaries_bounds(f, n - 1);
    }
}

/// The five-run windows a horizontal scan of row `y` checks, with the
/// position where each ends: after every other run end from the fifth on.
pub fn row_windows(gray: &[u8], width: u32, y: u32, threshold: u8) -> (r: Vec<(u32, [u32; 5])>)
    requires
        (y as int + 1) * (width as int) <= gray@.len(),
        (y as int) * (width as int) <= u32::MAX,
    ensures
        ({
            let b = boundaries(light_flags(gray@, y * width, 1, width as int, threshold), width as int);
            &&& r@.len() == num_windows(b.len() as int)
            &&& forall|i: int| 0 <= i < r@.len() ==> window_ok(#[trigger] r@[i], b, i)
        }),
{
    let ghost f = light_flags(gray@, y * width, 1, width as int, threshold);
    let mut out: Vec<(u32, [u32; 5])> = Vec::new();
    if width == 0 {
        return out;
    }
    proof {
        assert((y as int) * (width as int) + (width as int) <= gray@.len()) by (nonlinear_arith)
            requires
                (y as int + 1) * (width as int) <= gray@.len(),
        ;
    }
    let row_offset: usize = (y as usize) * (width as usize);
    let mut counts: Vec<u32> = vec![1, 0, 0, 0, 0];
    let mut idx: usize = 0;
    let mut last: bool = gray[row_offset] >= threshold;
    proof {
        assert(boundaries(f, 1) =~= Seq::<int>::empty());
        assert(counts@ =~= seq![1u32, 0, 0, 0, 0]);
    }
    let len = gray.len();
    let mut x: u32 = 1;
    while x < width
        invariant
            1 <= x <= width,
            len == gray@.len(),
            row_offset + width <= gray@.len(),
            row_offset == y * width,
            f == light_flags(gray@, y * width, 1, width as int, threshold),
            last == f[x - 1],
            scan_state(f, x as int, idx as int, counts@),
            out@.len() == num_windows(boundaries(f, x as int).len() as int),
            forall|i: int| 0 <= i < out@.len() ==> window_ok(#[trigger] out@[i], boundaries(f, x as int), i),
        decreases width - x,
    {
        let ghost b = boundaries(f, x as int);
        let ghost m = b.len() as int;
        proof {
            lemma_boundaries_bounds(f, x as int);
            assert(row_offset + x < gray@.len());
        }
        let xu = x as usize;
        let light = gray[row_offset + xu] >= threshold;
        proof {
            assert(light == f[x as int]);
        }
        if light == last {
            let c = counts[idx];
            counts.set(idx, c + 1);
            proof {
                assert(boundaries(f, x + 1) == b);
            }
        } else {
            proof {
                assert(boundaries(f, x + 1) == b.push(x as int));
            }
            let ghost b2 = b.push(x as int);
            if idx == 4 {
                let w: [u32; 5] = [counts[0], counts[1], counts[2], counts[3], counts[4]];
                proof {
                    assert(m % 2 == 0 && m >= 4);
                    assert forall|j: int| 0 <= j < 5 implies #[trigger] w@[j] == run_len(b2, m - 4 + j) by {
                        if j < 4 {
                            assert(counts@[j] == run_len(b, m - 4 + j));
                            assert(b2[m - 4 + j] == b[m - 4 + j]);
                            if m - 4 + j > 0 {
                                assert(b2[m - 5 + j] == b[m - 5 + j]);
                            }
                        } else {
                            assert(b2[m] == x);
                            if m > 0 {
                                assert(b2[m - 1] == b[m - 1]);
                            }
                        }
                    }
                    assert(num_windows(m) == (m - 4) / 2);
                }
                out.push((x, w));
                let c2 = counts[2];
                let c3 = counts[3];
                let c4 = counts[4];
                counts = vec![c2, c3, c4, 1, 0];
                idx = 3;
                proof {
                    assert forall|i: int| 0 <= i < out@.len() implies window_ok(#[trigger] out@[i], b2, i) by {
                        if i < out@.len() - 1 {
                            let wi = out@[i];
                            assert(window_ok(wi, b, i));
                            assert(4 + 2 * i < m);
                            assert(b2[4 + 2 * i] == b[4 + 2 * i]);
                            assert forall|j: int| 0 <= j < 5 implies #[trigger] wi.1@[j] == run_len(b2, 2 * i + j) by {
                                assert(b2[2 * i + j] == b[2 * i + j]);
                                if 2 * i + j > 0 {
                                    assert(b2[2 * i + j - 1] == b[2 * i + j - 1]);
                                }
                            }
                        } else {
                            assert(i == (m - 4) / 2);
                            assert(4 + 2 * i == m);
                        }
                    }
                    assert(counts@[0] == run_len(b2, m - 2)) by {
                        assert(b2[m - 2] == b[m - 2] && b2[m - 3] == b[m - 3]);
                    }
                    assert(counts@[1] == run_len(b2, m - 1)) by {
                        assert(b2[m - 1] == b[m - 1] && b2[m - 2] == b[m - 2]);
                    }
                    assert(counts@[2] == run_len(b2, m)) by {
                        assert(b2[m - 1] == b[m - 1]);
                    }
                    assert(scan_state(f, x + 1, idx as int, counts@));
                }
            } else {
                idx = idx + 1;
                counts.set(idx, 1);
                proof {
                    assert forall|j: int| 0 <= j < idx implies #[trigger] counts@[j] == run_len(b2, m + 1 - idx + j) by {
                        if j < idx - 1 {
                            assert(b2[m + 1 - idx + j] == b[m + 1 - idx + j]);
                            if m + 1 - idx + j > 0 {
                                assert(b2[m - idx + j] == b[m - idx + j]);
                            }
                        } else {
                            assert(b2[m] == x);
                            if m > 0 {
                                assert(b2[m - 1] == b[m - 1]);
                            }
                        }
                    }
                    assert forall|i: int| 0 <= i < out@.len() implies window_ok(#[trigger] out@[i], b2, i) by {
                        let wi = out@[i];
                        assert(window_ok(wi, b, i));
                        assert(b2[4 + 2 * i] == b[4 + 2 * i]);
                        assert forall|j: int| 0 <= j < 5 implies #[trigger] wi.1@[j] == run_len(b2, 2 * i + j) by {
                            assert(b2[2 * i + j] == b[2 * i + j]);
                            if 2 * i + j > 0 {
                                assert(b2[2 * i + j - 1] == b[2 * i + j - 1]);
                            }
                        }
                    }
                }
            }
            last = light;
        }
        x = x + 1;
    }
    out
}

/// The counters of a column scan over rows `start_y..end_y` of column `x`:
/// the first four run lengths, then the pixels from the fourth run end on
/// that do not themselves end a run.
pub open spec fn column_counts_ok(w: [u32; 5], b: Seq<int>, n: int) -> bool {
    &&& forall|j: int| 0 <= j < 4 ==> #[trigger] w@[j] == run_len(b, j)
    &&& w@[4] == (n - b[3]) - (b.len() - 4)
}

/// The column state after the first `n` flags.
spec fn column_state(f: Seq<bool>, n: int, idx: int, counts: Seq<u32>) -> bool {
    let b = boundaries(f, n);
    let m = b.len() as int;
    &&& counts.len() == 5
    &&& idx == (if m < 4 { m } else { 4 })
    &&& forall|j: int| 0 <= j < idx ==> #[trigger] counts[j] == run_len(b, j)
    &&& counts[idx] == (if m < 4 { n - run_start(b, m) } else { (n - b[3]) - (m - 4) })
    &&& forall|j: int| idx < j < 5 ==> #[trigger] counts[j] == 0
}

/// The runs of column `x` over rows `start_y..end_y`, for the vertical
/// check of a finder pattern: `None` when `x` is outside the image or the
/// segment changes color fewer than four times.
pub fn column_runs(gray: &[u8], width: u32, x: u32, start_y: u32, end_y: u32, threshold: u8) -> (r: Option<
    [u32; 5],
>)
    requires
        x < width && start_y < end_y ==> (end_y as int - 1) * (width as int) + (x as int) < gray@.len(),
        x < width && start_y < end_y ==> (end_y as int - 1) * (width as int) + (x as int) <= u32::MAX,
    ensures
        ({
            let n = if start_y < end_y { end_y - start_y } else { 0int };
            let b = boundaries(light_flags(gray@, start_y * width + x, width as int, n, threshold), n);
            &&& r is Some <==> (x < width && b.len() >= 4)
            &&& r matches Some(w) ==> column_counts_ok(w, b, n)
        }),
{
    if x >= width || start_y >= end_y {
        return None;
    }
    let ghost n = end_y - start_y;
    let ghost f = light_flags(gray@, start_y * width + x, width as int, n, threshold);
    let len = gray.len();
    proof {
        assert((start_y as int) * (width as int) <= (end_y as int - 1) * (width as int)) by (nonlinear_arith)
            requires
                start_y < end_y,
        ;
    }
    let mut pos: u64 = (start_y as u64) * (width as u64) + (x as u64);
    let mut counts: Vec<u32> = vec![1, 0, 0, 0, 0];
    let mut idx: usize = 0;
    let mut last: bool = gray[pos as usize] >= threshold;
    proof {
        assert(boundaries(f, 1) =~= Seq::<int>::empty());
        assert(counts@ =~= seq![1u32, 0, 0, 0, 0]);
    }
    let mut scan_y: u32 = start_y + 1;
    while scan_y < end_y
        invariant
            start_y < scan_y <= end_y,
            x < width,
            len == gray@.len(),
            n == end_y - start_y,
            (end_y as int - 1) * (width as int) + (x as int) < gray@.len(),
            (end_y as int - 1) * (width as int) + (x as int) <= u32::MAX,
            pos == (scan_y as int - 1) * (width as int) + (x as int),
            f == light_flags(gray@, start_y * width + x, width as int, n, threshold),
            last == f[scan_y - start_y - 1],
            column_state(f, scan_y - start_y, idx as int, counts@),
        decreases end_y - scan_y,
    {
        let ghost i = scan_y - start_y;
        let ghost b = boundaries(f, i);
        let ghost m = b.len() as int;
        proof {
            lemma_boundaries_bounds(f, i);
            assert(pos + width == (scan_y as int) * (width as int) + (x as int)) by (nonlinear_arith)
                requires
                    pos == (scan_y as int - 1) * (width as int) + (x as int),
            ;
            assert((scan_y as int) * (width as int) <= (end_y as int - 1) * (width as int)) by (nonlinear_arith)
                requires
                    scan_y < end_y,
            ;
            assert(start_y * width + x + i * width == (scan_y as int) * (width as int) + (x as int)) by (nonlinear_arith)
                requires
                    i == scan_y - start_y,
            ;
        }
        pos = pos + (width as u64);
        let light = gray[pos as usize] >= threshold;
        proof {
            assert(light == f[i]);
        }
        if light == last {
            let c = counts[idx];
            counts.set(idx, c + 1);
            proof {
                assert(boundaries(f, i + 1) == b);
            }
        } else {
            proof {
                assert(boundaries(f, i + 1) == b.push(i));
            }
            let ghost b2 = b.push(i);
            if idx < 4 {
                idx = idx + 1;
                counts.set(idx, 1);
                proof {
                    assert forall|j: int| 0 <= j < idx implies #[trigger] counts@[j] == run_len(b2, j) by {
                        assert(b2[j] == if j < m { b[j] } else { i });
                        if j > 0 {
                            assert(b2[j - 1] == b[j - 1]);
                        }
                    }
                    if m + 1 == 4 {
                        assert(b2[3] == i);
                    }
                }
            } else {
                proof {
                    assert(b2[3] == b[3]);
                }
            }
            last = light;
        }
        scan_y = scan_y + 1;
    }
    proof {
        lemma_boundaries_bounds(f, n);
    }
    if idx >= 4 {
        let w: [u32; 5] = [counts[0], counts[1], counts[2], counts[3], counts[4]];
        proof {
            assert forall|j: int| 0 <= j < 4 implies #[trigger] w@[j] == run_len(boundaries(f, n), j) by {
                assert(w@[j] == counts@[j]);
            }
        }
        Some(w)
    } else {
        None
    }
}

} // verus!
