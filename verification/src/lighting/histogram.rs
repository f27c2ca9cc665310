//! 256-bin luminance histograms.

use vstd::prelude::*;

verus! {

/// Number of occurrences of value `v` among the first `n` bytes of `s`.
pub open spec fn count_in_prefix(s: Seq<u8>, v: int, n: int) -> int
    decreases n,
{
    if n <= 0 {
        0
    } else {
        count_in_prefix(s, v, n - 1) + (if s[n - 1] == v { 1int } else { 0 })
    }
}

/// Sum of the first `k` bins of a histogram.
pub open spec fn bins_sum(h: Seq<u32>, k: int) -> int
    decreases k,
{
    if k <= 0 {
        0
    } else {
        bins_sum(h, k - 1) + h[k - 1]
    }
}

/// Compute a 256-bin luminance histogram: bin `v` counts the pixels of value `v`.
pub fn compute_histogram(gray: &[u8]) -> (hist: [u32; 256])
    requires
        forall|v: int| 0 <= v < 256 ==> #[trigger] count_in_prefix(gray@, v, gray@.len() as int) <= u32::MAX,
    ensures
        forall|v: int| 0 <= v < 256 ==> #[trigger] hist@[v] == count_in_prefix(gray@, v, gray@.len() as int),
{
    let mut hist = [0u32; 256];
    let mut i: usize = 0;
    while i < gray.len()
        invariant
            0 <= i <= gray@.len(),
            forall|v: int| 0 <= v < 256 ==> #[trigger] count_in_prefix(gray@, v, gray@.len() as int) <= u32::MAX,
            hist@.len() == 256,
            forall|v: int| 0 <= v < 256 ==> #[trigger] hist@[v] == count_in_prefix(gray@, v, i as int),
        decreases gray@.len() - i,
    {
        proof {
            lemma_count_bound(gray@, gray@[i as int] as int, i as int);
            lemma_count_monotone(gray@, gray@[i as int] as int, i as int + 1, gray@.len() as int);
        }
        let p = gray[i] as usize;
        hist[p] = hist[p] + 1;
        i = i + 1;
    }
    hist
}

proof fn lemma_count_monotone(s: Seq<u8>, v: int, m: int, n: int)
    requires
        0 <= m <= n <= s.len(),
    ensures
        count_in_prefix(s, v, m) <= count_in_prefix(s, v, n),
    decreases n - m,
{
    if m < n {
        lemma_count_monotone(s, v, m, n - 1);
    }
}

proof fn lemma_count_bound(s: Seq<u8>, v: int, n: int)
    requires
        0 <= n <= s.len(),
    ensures
        0 <= count_in_prefix(s, v, n) <= n,
    decreases n,
{
    if n > 0 {
        lemma_count_bound(s, v, n - 1);
    }
}

proof fn lemma_counts_sum_step(s: Seq<u8>, n: int, k: int)
    requires
        0 <= n < s.len(),
        0 <= k <= 256,
    ensures
        sum_counts(s, n + 1, k) == sum_counts(s, n, k) + (if s[n] < k { 1int } else { 0 }),
    decreases k,
{
    if k > 0 {
        lemma_counts_sum_step(s, n, k - 1);
    }
}

/// Sum over the first `k` values of their counts among the first `n` bytes.
pub open spec fn sum_counts(s: Seq<u8>, n: int, k: int) -> int
    decreases k,
{
    if k <= 0 {
        0
    } else {
        sum_counts(s, n, k - 1) + count_in_prefix(s, k - 1, n)
    }
}

proof fn lemma_counts_total(s: Seq<u8>, n: int)
    requires
        0 <= n <= s.len(),
    ensures
        sum_counts(s, n, 256) == n,
    decreases n,
{
    if n == 0 {
        lemma_counts_zero(s, 256);
    } else {
        lemma_counts_total(s, n - 1);
        lemma_counts_sum_step(s, n - 1, 256);
    }
}

proof fn lemma_counts_zero(s: Seq<u8>, k: int)
    requires
        0 <= k,
    ensures
        sum_counts(s, 0, k) == 0,
    decreases k,
{
    if k > 0 {
        lemma_counts_zero(s, k - 1);
    }
}

proof fn lemma_bins_match(h: Seq<u32>, s: Seq<u8>, k: int)
    requires
        0 <= k <= 256,
        h.len() == 256,
        forall|v: int| 0 <= v < 256 ==> #[trigger] h[v] == count_in_prefix(s, v, s.len() as int),
    ensures
        bins_sum(h, k) == sum_counts(s, s.len() as int, k),
    decreases k,
{
    if k > 0 {
        lemma_bins_match(h, s, k - 1);
    }
}

/// A histogram counts every pixel exactly once: its bins add up to the
/// number of pixels.
pub proof fn lemma_histogram_total(gray: Seq<u8>, hist: Seq<u32>)
    requires
        hist.len() == 256,
        forall|v: int|
            0 <= v < 256 ==> #[trigger] hist[v] == count_in_prefix(gray, v, gray.len() as int),
    ensures
        bins_sum(hist, 256) == gray.len(),
{
    lemma_bins_match(hist, gray, 256);
    lemma_counts_total(gray, gray.len() as int);
}

proof fn lemma_bins_sum_monotone(h: Seq<u32>, j: int, k: int)
    requires
        0 <= j <= k <= h.len(),
    ensures
        0 <= bins_sum(h, j) <= bins_sum(h, k),
        bins_sum(h, k) <= k * 0xffff_ffff,
    decreases k,
{
    if k > 0 {
        if j < k {
            lemma_bins_sum_monotone(h, j, k - 1);
        } else {
            lemma_bins_sum_monotone(h, j - 1, k - 1);
        }
    }
}

/// Total count of a histogram.
pub fn histogram_total(hist: &[u32; 256]) -> (t: u64)
    ensures
        t == bins_sum(hist@, 256),
{
    let mut total: u64 = 0;
    let mut i: usize = 0;
    while i < 256
        invariant
            0 <= i <= 256,
            hist@.len() == 256,
            total == bins_sum(hist@, i as int),
        decreases 256 - i,
    {
        proof {
            lemma_bins_sum_monotone(hist@, i + 1, i + 1);
        }
        total = total + hist[i] as u64;
        i = i + 1;
    }
    total
}

/// Running count of a histogram up to and including intensity `i`.
pub open spec fn count_through(h: Seq<u32>, i: int) -> int {
    bins_sum(h, i + 1)
}

/// Some intensity's running count reaches `target`.
pub open spec fn reaches(h: Seq<u32>, target: int) -> bool {
    exists|i: int| 0 <= i < 256 && #[trigger] count_through(h, i) >= target
}

/// The intensity at which the running count of the histogram first reaches
/// `target` pixels (255 when it never does).
pub fn histogram_percentile_bin(hist: &[u32; 256], target: u64) -> (v: u8)
    ensures
        reaches(hist@, target as int) ==> {
            &&& count_through(hist@, v as int) >= target
            &&& forall|j: int| 0 <= j < v ==> #[trigger] count_through(hist@, j) < target
        },
        !reaches(hist@, target as int) ==> v == 255,
{
    let mut cumulative: u64 = 0;
    let mut i: usize = 0;
    while i < 256
        invariant
            0 <= i <= 256,
            hist@.len() == 256,
            cumulative == bins_sum(hist@, i as int),
            forall|j: int| 0 <= j < i ==> #[trigger] count_through(hist@, j) < target,
        decreases 256 - i,
    {
        proof {
            lemma_bins_sum_monotone(hist@, i + 1, i + 1);
        }
        cumulative = cumulative + hist[i] as u64;
        if cumulative >= target {
            proof {
                assert(count_through(hist@, i as int) >= target);
            }
            return i as u8;
        }
        proof {
            assert(count_through(hist@, i as int) < target);
        }
        i = i + 1;
    }
    proof {
        assert forall|k: int| 0 <= k < 256 implies !(#[trigger] count_through(hist@, k) >= target) by {}
    }
    255
}

/// Sum over the first `k` bins of the intensity times its count.
pub open spec fn weighted_sum(h: Seq<u32>, k: int) -> int
    decreases k,
{
    if k <= 0 {
        0
    } else {
        weighted_sum(h, k - 1) + (k - 1) * h[k - 1]
    }
}

proof fn lemma_weighted_bound(h: Seq<u32>, k: int)
    requires
        0 <= k <= h.len(),
        k <= 256,
    ensures
        0 <= weighted_sum(h, k) <= k * (255 * 0xffff_ffff),
    decreases k,
{
    if k > 0 {
        lemma_weighted_bound(h, k - 1);
        assert(0 <= (k - 1) * h[k - 1] <= 255 * 0xffff_ffff) by (nonlinear_arith)
            requires
                0 <= k - 1 <= 255,
                0 <= h[k - 1] <= 0xffff_ffff,
        ;
        assert((k - 1) * (255 * 0xffff_ffff) + 255 * 0xffff_ffff == k * (255 * 0xffff_ffff))
            by (nonlinear_arith);
    }
}

/// Sum over all intensities of the intensity times its count.
pub fn histogram_weighted_sum(hist: &[u32; 256]) -> (t: u64)
    ensures
        t == weighted_sum(hist@, 256),
{
    let mut total: u64 = 0;
    let mut i: usize = 0;
    while i < 256
        invariant
            0 <= i <= 256,
            hist@.len() == 256,
            total == weighted_sum(hist@, i as int),
        decreases 256 - i,
    {
        proof {
            lemma_weighted_bound(hist@, i + 1);
            assert((i + 1) * (255 * 0xffff_ffff) <= 256 * (255 * 0xffff_ffff)) by (nonlinear_arith)
                requires
                    i + 1 <= 256,
            ;
            assert(i * hist@[i as int] <= 255 * 0xffff_ffff) by (nonlinear_arith)
                requires
                    i <= 255,
                    hist@[i as int] <= 0xffff_ffff,
            ;
        }
        total = total + (i as u64) * (hist[i] as u64);
        i = i + 1;
    }
    total
}

} // verus!
