//! FAST-9 corner detection.
//!
//! A pixel is a corner when 9 contiguous pixels of the 16-pixel Bresenham
//! circle of radius 3 around it are all brighter than the centre plus the
//! threshold, or all darker than the centre minus the threshold. Pixels
//! first have to pass a quick test on the four compass points.

use vstd::prelude::*;

verus! {

/// Horizontal offset of circle pixel `i` (0 at the top, going clockwise).
pub open spec fn circle_dx(i: int) -> int {
    if i == 0 { 0 }
    else if i == 1 { 1 }
    else if i == 2 { 2 }
    else if i == 3 { 3 }
    else if i == 4 { 3 }
    else if i == 5 { 3 }
    else if i == 6 { 2 }
    else if i == 7 { 1 }
    else if i == 8 { 0 }
    else if i == 9 { -1 }
    else if i == 10 { -2 }
    else if i == 11 { -3 }
    else if i == 12 { -3 }
    else if i == 13 { -3 }
    else if i == 14 { -2 }
    else { -1 }
}

/// Vertical offset of circle pixel `i` (0 at the top, going clockwise).
pub open spec fn circle_dy(i: int) -> int {
    if i == 0 { -3 }
    else if i == 1 { -3 }
    else if i == 2 { -2 }
    else if i == 3 { -1 }
    else if i == 4 { 0 }
    else if i == 5 { 1 }
    else if i == 6 { 2 }
    else if i == 7 { 3 }
    else if i == 8 { 3 }
    else if i == 9 { 3 }
    else if i == 10 { 2 }
    else if i == 11 { 1 }
    else if i == 12 { 0 }
    else if i == 13 { -1 }
    else if i == 14 { -2 }
    else { -3 }
}

/// The offsets (dx, dy) of circle pixel `i`.
pub fn circle_offset(i: usize) -> (r: (i32, i32))
    requires
        i < 16,
    ensures
        r.0 == circle_dx(i as int),
        r.1 == circle_dy(i as int),
{
    if i == 0 { (0, -3) }
    else if i == 1 { (1, -3) }
    else if i == 2 { (2, -2) }
    else if i == 3 { (3, -1) }
    else if i == 4 { (3, 0) }
    else if i == 5 { (3, 1) }
    else if i == 6 { (2, 2) }
    else if i == 7 { (1, 3) }
    else if i == 8 { (0, 3) }
    else if i == 9 { (-1, 3) }
    else if i == 10 { (-2, 2) }
    else if i == 11 { (-3, 1) }
    else if i == 12 { (-3, 0) }
    else if i == 13 { (-3, -1) }
    else if i == 14 { (-2, -2) }
    else { (-1, -3) }
}

/// All of `flags[s], flags[s+1], ..., flags[s+n-1]` (indices taken mod 16) hold.
pub open spec fn window_all(flags: Seq<bool>, s: int, n: int) -> bool {
    forall|k: int| 0 <= k < n ==> #[trigger] flags[(s + k) % 16]
}

/// The circular array of 16 flags has at least `n` contiguous true values.
pub open spec fn has_arc(flags: Seq<bool>, n: int) -> bool {
    n <= 16 && exists|s: int| 0 <= s < 16 && #[trigger] window_all(flags, s, n)
}

/// Length of the run of true flags that ends just before position `i`.
pub open spec fn run_end(f: Seq<bool>, i: int) -> int
    decreases i,
{
    if i <= 0 {
        0
    } else if f[i - 1] {
        run_end(f, i - 1) + 1
    } else {
        0
    }
}

/// Length of the longest run of true flags among the first `i`.
pub open spec fn max_run(f: Seq<bool>, i: int) -> int
    decreases i,
{
    if i <= 0 {
        0
    } else if max_run(f, i - 1) >= run_end(f, i) {
        max_run(f, i - 1)
    } else {
        run_end(f, i)
    }
}

proof fn lemma_run_end(f: Seq<bool>, i: int)
    requires
        0 <= i <= f.len(),
    ensures
        0 <= run_end(f, i) <= i,
        forall|k: int| i - run_end(f, i) <= k < i ==> #[trigger] f[k],
    decreases i,
{
    if i > 0 {
        lemma_run_end(f, i - 1);
    }
}

proof fn lemma_window_run(f: Seq<bool>, a: int, b: int)
    requires
        0 <= a <= b <= f.len(),
        forall|k: int| a <= k < b ==> #[trigger] f[k],
    ensures
        run_end(f, b) >= b - a,
    decreases b,
{
    lemma_run_end(f, b);
    if b > a {
        assert(f[b - 1]);
        lemma_window_run(f, a, b - 1);
    }
}

proof fn lemma_max_run(f: Seq<bool>, i: int)
    requires
        0 <= i <= f.len(),
    ensures
        forall|j: int| 0 <= j <= i ==> max_run(f, i) >= #[trigger] run_end(f, j),
        exists|j: int| 0 <= j <= i && max_run(f, i) == #[trigger] run_end(f, j),
    decreases i,
{
    if i > 0 {
        lemma_max_run(f, i - 1);
        let j0 = choose|j: int| 0 <= j <= i - 1 && max_run(f, i - 1) == #[trigger] run_end(f, j);
        if max_run(f, i - 1) >= run_end(f, i) {
            assert(max_run(f, i) == run_end(f, j0));
        } else {
            assert(max_run(f, i) == run_end(f, i));
        }
    } else {
        assert(max_run(f, 0) == run_end(f, 0));
    }
}

/// A FAST corner found by the detector: its position and the sum of the
/// absolute intensity differences between the 16 circle pixels and the centre.
#[derive(Debug, Clone, Copy, PartialEq, Eq, Structural)]
pub struct Corner {
    /// Column
    pub x: u32,
    /// Row
    pub y: u32,
    /// Sum of |circle pixel - centre| over the 16 circle pixels
    pub score_sum: u32,
}

/// Intensity of pixel (x, y) in a row-major image of width `w`.
pub open spec fn pixel_at(img: Seq<u8>, w: int, x: int, y: int) -> int {
    img[y * w + x] as int
}

/// Difference between circle pixel `i` around (x, y) and the centre.
pub open spec fn ring_diff(img: Seq<u8>, w: int, x: int, y: int, i: int) -> int {
    pixel_at(img, w, x + circle_dx(i), y + circle_dy(i)) - pixel_at(img, w, x, y)
}

/// Which circle pixels are brighter than the centre by more than `t`.
pub open spec fn brighter_flags(img: Seq<u8>, w: int, x: int, y: int, t: int) -> Seq<bool> {
    Seq::new(16, |i: int| ring_diff(img, w, x, y, i) > t)
}

/// Which circle pixels are darker than the centre by more than `t`.
pub open spec fn darker_flags(img: Seq<u8>, w: int, x: int, y: int, t: int) -> Seq<bool> {
    Seq::new(16, |i: int| ring_diff(img, w, x, y, i) < -t)
}

/// Number of true values among positions 0, 4, 8 and 12.
pub open spec fn compass_count(f: Seq<bool>) -> int {
    (if f[0] { 1int } else { 0 }) + (if f[4] { 1int } else { 0 }) + (if f[8] { 1int } else { 0 }) + (
    if f[12] { 1int } else { 0 })
}

/// The quick test: at least 3 of the 4 compass pixels are all brighter or all darker.
pub open spec fn passes_quick_test(img: Seq<u8>, w: int, x: int, y: int, t: int) -> bool {
    compass_count(brighter_flags(img, w, x, y, t)) >= 3 || compass_count(
        darker_flags(img, w, x, y, t),
    ) >= 3
}

/// (x, y) is reported as a corner: it passes the quick test and 9 contiguous
/// circle pixels are all brighter, or all darker, than the centre by more than `t`.
pub open spec fn is_fast_corner(img: Seq<u8>, w: int, x: int, y: int, t: int) -> bool {
    passes_quick_test(img, w, x, y, t) && (has_arc(brighter_flags(img, w, x, y, t), 9) || has_arc(
        darker_flags(img, w, x, y, t),
        9,
    ))
}

/// Sum of |ring_diff| over the first `n` circle pixels.
pub open spec fn score_prefix(img: Seq<u8>, w: int, x: int, y: int, n: int) -> int
    decreases n,
{
    if n <= 0 {
        0
    } else {
        let d = ring_diff(img, w, x, y, n - 1);
        score_prefix(img, w, x, y, n - 1) + (if d < 0 { -d } else { d })
    }
}

/// Absolute difference between circle pixel `i` around (x, y) and the centre.
pub open spec fn abs_ring_diff(img: Seq<u8>, w: int, x: int, y: int, i: int) -> int {
    let p = pixel_at(img, w, x + circle_dx(i), y + circle_dy(i));
    let c = pixel_at(img, w, x, y);
    if p >= c {
        p - c
    } else {
        c - p
    }
}

/// The corner score over the first `n` circle pixels is the plain sum of
/// their absolute differences from the centre: each circle pixel adds
/// `|pixel - centre|`, so the score is never below any one of those
/// differences, and pixels brighter and darker than the centre never cancel.
pub proof fn lemma_score_sums_absolute_differences(img: Seq<u8>, w: int, x: int, y: int, n: int)
    requires
        0 <= n <= 16,
    ensures
        score_prefix(img, w, x, y, n) == Seq::new(n as nat, |i: int| abs_ring_diff(img, w, x, y, i)).fold_left(
            0int,
            |acc: int, v: int| acc + v,
        ),
        forall|i: int| 0 <= i < n ==> #[trigger] abs_ring_diff(img, w, x, y, i) <= score_prefix(img, w, x, y, n),
        score_prefix(img, w, x, y, n) >= 0,
    decreases n,
{
    let f = |i: int| abs_ring_diff(img, w, x, y, i);
    let g = |acc: int, v: int| acc + v;
    if n > 0 {
        lemma_score_sums_absolute_differences(img, w, x, y, n - 1);
        assert(Seq::new(n as nat, f).drop_last() =~= Seq::new((n - 1) as nat, f));
        assert(abs_ring_diff(img, w, x, y, n - 1) >= 0);
    } else {
        assert(Seq::new(n as nat, f).len() == 0);
    }
}

/// Raising the absolute difference of any circle pixel never lowers the
/// corner score: two windows whose circle pixels differ from their centres
/// by no more in the first than in the second score no more in the first.
pub proof fn lemma_score_monotone(
    img1: Seq<u8>,
    w1: int,
    x1: int,
    y1: int,
    img2: Seq<u8>,
    w2: int,
    x2: int,
    y2: int,
    n: int,
)
    requires
        0 <= n <= 16,
        forall|i: int|
            0 <= i < n ==> #[trigger] abs_ring_diff(img1, w1, x1, y1, i) <= abs_ring_diff(
                img2,
                w2,
                x2,
                y2,
                i,
            ),
    ensures
        score_prefix(img1, w1, x1, y1, n) <= score_prefix(img2, w2, x2, y2, n),
    decreases n,
{
    if n > 0 {
        lemma_score_monotone(img1, w1, x1, y1, img2, w2, x2, y2, n - 1);
        assert(abs_ring_diff(img1, w1, x1, y1, n - 1) <= abs_ring_diff(img2, w2, x2, y2, n - 1));
    }
}

/// Corners of row `y` with x in `3..xe`, left to right.
pub open spec fn row_corners(img: Seq<u8>, w: int, t: int, y: int, xe: int) -> Seq<Corner>
    decreases xe,
{
    if xe <= 3 {
        seq![]
    } else {
        let prev = row_corners(img, w, t, y, xe - 1);
        if is_fast_corner(img, w, xe - 1, y, t) {
            prev.push(
                Corner {
                    x: (xe - 1) as u32,
                    y: y as u32,
                    score_sum: score_prefix(img, w, xe - 1, y, 16) as u32,
                },
            )
        } else {
            prev
        }
    }
}

/// Corners of rows `3..ye`, in row-major order.
pub open spec fn corners_upto(img: Seq<u8>, w: int, h: int, t: int, ye: int) -> Seq<Corner>
    decreases ye,
{
    if ye <= 3 {
        seq![]
    } else {
        corners_upto(img, w, h, t, ye - 1) + row_corners(img, w, t, ye - 1, w - 3)
    }
}

/// All FAST corners of an image, skipping a 3-pixel border, in row-major order.
pub open spec fn fast_corners(img: Seq<u8>, w: int, h: int, t: int) -> Seq<Corner> {
    corners_upto(img, w, h, t, h - 3)
}

/// FAST corner detector configuration.
pub struct FastDetector {
    /// Intensity threshold for corner detection
    pub threshold: u8,
}

impl FastDetector {
    /// Create a new FAST detector with the given intensity threshold.
    pub fn new(threshold: u8) -> (d: Self)
        ensures
            d.threshold == threshold,
    {
        FastDetector { threshold }
    }

    /// Check if there are at least `n` contiguous true values in a circular array.
    pub fn has_contiguous_arc(&self, flags: &[bool; 16], n: usize) -> (b: bool)
        ensures
            b == has_arc(flags@, n as int),
    {
        let ghost f = flags@;
        let mut count: usize = 0;
        let mut max_count: usize = 0;
        let mut i: usize = 0;
        while i < 16
            invariant
                0 <= i <= 16,
                f == flags@,
                f.len() == 16,
                count == run_end(f, i as int),
                max_count == max_run(f, i as int),
                count <= i,
                max_count <= i,
            decreases 16 - i,
        {
            if flags[i] {
                count = count + 1;
                if count > max_count {
                    max_count = count;
                }
            } else {
                count = 0;
            }
            i = i + 1;
        }
        proof {
            lemma_max_run(f, 16);
        }
        if max_count >= n {
            proof {
                let j = choose|j: int| 0 <= j <= 16 && max_run(f, 16) == #[trigger] run_end(f, j);
                lemma_run_end(f, j);
                let s = j - n;
                assert(window_all(f, s, n as int)) by {
                    assert forall|k: int| 0 <= k < n implies #[trigger] f[(s + k) % 16] by {
                        assert((s + k) % 16 == s + k);
                    }
                }
                if s == 16 {
                    assert(window_all(f, 0, n as int));
                }
            }
            return true;
        }
        if flags[0] && flags[15] {
            let mut start_count: usize = 0;
            while start_count < 16 && flags[start_count]
                invariant
                    0 <= start_count <= 16,
                    f == flags@,
                    forall|k: int| 0 <= k < start_count ==> #[trigger] f[k],
                decreases 16 - start_count,
            {
                start_count = start_count + 1;
            }
            let mut end_count: usize = 0;
            while end_count < 16 && flags[15 - end_count]
                invariant
                    0 <= end_count <= 16,
                    f == flags@,
                    forall|k: int| 16 - end_count <= k < 16 ==> #[trigger] f[k],
                decreases 16 - end_count,
            {
                end_count = end_count + 1;
            }
            if start_count + end_count >= n && start_count < 16 && end_count < 16 {
                proof {
                    let s = 16 - end_count;
                    assert forall|k: int| 0 <= k < n implies #[trigger] f[(s + k) % 16] by {
                        if s + k < 16 {
                            assert((s + k) % 16 == s + k);
                        } else {
                            assert((s + k) % 16 == s + k - 16);
                        }
                    }
                    assert(window_all(f, s, n as int));
                }
                return true;
            }
            proof {
                if has_arc(f, n as int) {
                    let s = choose|s: int| 0 <= s < 16 && #[trigger] window_all(f, s, n as int);
                    if s + n <= 16 {
                        assert forall|k: int| s <= k < s + n implies #[trigger] f[k] by {
                            assert(f[(s + (k - s)) % 16]);
                            assert((s + (k - s)) % 16 == k);
                        }
                        lemma_window_run(f, s, s + n);
                    } else {
                        assert forall|k: int| s <= k < 16 implies #[trigger] f[k] by {
                            assert(f[(s + (k - s)) % 16]);
                            assert((s + (k - s)) % 16 == k);
                        }
                        assert forall|k: int| 0 <= k < s + n - 16 implies #[trigger] f[k] by {
                            assert(f[(s + (k + 16 - s)) % 16]);
                            assert((s + (k + 16 - s)) % 16 == k);
                        }
                        if start_count == 16 || end_count == 16 {
                            lemma_window_run(f, 0, 16);
                        } else {
                            assert(!f[start_count as int]);
                            assert(!f[15 - end_count]);
                            assert(start_count >= s + n - 16);
                            assert(end_count >= 16 - s);
                        }
                    }
                }
            }
            return false;
        }
        proof {
            if has_arc(f, n as int) {
                let s = choose|s: int| 0 <= s < 16 && #[trigger] window_all(f, s, n as int);
                if s + n <= 16 {
                    assert forall|k: int| s <= k < s + n implies #[trigger] f[k] by {
                        assert(f[(s + (k - s)) % 16]);
                        assert((s + (k - s)) % 16 == k);
                    }
                    lemma_window_run(f, s, s + n);
                } else {
                    assert(f[(s + (16 - s)) % 16]);
                    assert((s + (16 - s)) % 16 == 0);
                    assert(f[(s + (15 - s)) % 16]);
                    assert((s + (15 - s)) % 16 == 15);
                }
            }
        }
        false
    }
}

/// (x, y) lies at least 3 pixels inside an image of width `w` held in `img`.
pub open spec fn ring_inside(img: Seq<u8>, w: int, x: int, y: int) -> bool {
    &&& 3 <= x
    &&& x + 3 < w
    &&& 3 <= y
    &&& (y + 3) * w + x + 3 < img.len()
}

/// Intensity of circle pixel `i` around (x, y).
fn ring_pixel(img: &[u8], w: usize, x: usize, y: usize, i: usize) -> (p: u8)
    requires
        ring_inside(img@, w as int, x as int, y as int),
        i < 16,
    ensures
        p as int == pixel_at(img@, w as int, x + circle_dx(i as int), y + circle_dy(i as int)),
{
    let (dx, dy) = circle_offset(i);
    proof {
        assert(img@.len() == img.len());
        let ww = w as int;
        let y3 = y as int + 3;
        assert(y3 <= y3 * ww) by (nonlinear_arith)
            requires
                ww >= 1,
                y3 >= 0,
        ;
    }
    let px: usize = if dx < 0 { x - ((-dx) as usize) } else { x + (dx as usize) };
    let py: usize = if dy < 0 { y - ((-dy) as usize) } else { y + (dy as usize) };
    proof {
        let yy = py as int;
        let ww = w as int;
        assert(yy <= y + 3);
        assert(yy * ww <= (y + 3) * ww) by (nonlinear_arith)
            requires
                yy <= y + 3,
                ww >= 0,
        ;
        assert(0 <= yy * ww) by (nonlinear_arith)
            requires
                yy >= 0,
                ww >= 0,
        ;
        assert(py * w == yy * ww);
    }
    img[py * w + px]
}

/// Intensity of pixel (x, y).
fn center_pixel(img: &[u8], w: usize, x: usize, y: usize) -> (p: u8)
    requires
        ring_inside(img@, w as int, x as int, y as int),
    ensures
        p as int == pixel_at(img@, w as int, x as int, y as int),
{
    proof {
        assert(img@.len() == img.len());
        let ww = w as int;
        let yy = y as int;
        assert(yy * ww <= (yy + 3) * ww) by (nonlinear_arith)
            requires
                ww >= 0,
        ;
        assert(y * w == yy * ww);
        assert(0 <= yy * ww) by (nonlinear_arith)
            requires
                yy >= 0,
                ww >= 0,
        ;
    }
    img[y * w + x]
}

impl FastDetector {
    /// Quick test on the four compass pixels (circle positions 0, 4, 8, 12):
    /// returns false when fewer than 3 are brighter and fewer than 3 are
    /// darker than the centre by more than the threshold, so that the pixel
    /// cannot be a corner.
    pub fn quick_reject_test(&self, grayscale: &[u8], width: usize, x: usize, y: usize) -> (b:
        bool)
        requires
            ring_inside(grayscale@, width as int, x as int, y as int),
        ensures
            b == passes_quick_test(
                grayscale@,
                width as int,
                x as int,
                y as int,
                self.threshold as int,
            ),
    {
        let t = self.threshold as i16;
        let c = center_pixel(grayscale, width, x, y) as i16;
        let p0 = ring_pixel(grayscale, width, x, y, 0) as i16;
        let p4 = ring_pixel(grayscale, width, x, y, 4) as i16;
        let p8 = ring_pixel(grayscale, width, x, y, 8) as i16;
        let p12 = ring_pixel(grayscale, width, x, y, 12) as i16;
        let brighter_count: u8 = (if p0 > c + t { 1u8 } else { 0u8 }) + (if p4 > c + t {
            1u8
        } else {
            0u8
        }) + (if p8 > c + t { 1u8 } else { 0u8 }) + (if p12 > c + t { 1u8 } else { 0u8 });
        let darker_count: u8 = (if p0 < c - t { 1u8 } else { 0u8 }) + (if p4 < c - t {
            1u8
        } else {
            0u8
        }) + (if p8 < c - t { 1u8 } else { 0u8 }) + (if p12 < c - t { 1u8 } else { 0u8 });
        proof {
            let bf = brighter_flags(grayscale@, width as int, x as int, y as int, t as int);
            let df = darker_flags(grayscale@, width as int, x as int, y as int, t as int);
            assert(bf[0] == (p0 > c + t) && bf[4] == (p4 > c + t) && bf[8] == (p8 > c + t) && bf[12]
                == (p12 > c + t));
            assert(df[0] == (p0 < c - t) && df[4] == (p4 < c - t) && df[8] == (p8 < c - t) && df[12]
                == (p12 < c - t));
        }
        brighter_count >= 3 || darker_count >= 3
    }

    /// Full FAST-9 test: Some(sum of |circle pixel - centre|) when 9
    /// contiguous circle pixels are all brighter, or all darker, than the
    /// centre by more than the threshold; None otherwise.
    pub fn full_fast9_test(&self, grayscale: &[u8], width: usize, x: usize, y: usize) -> (r: Option<
        u32,
    >)
        requires
            ring_inside(grayscale@, width as int, x as int, y as int),
        ensures
            r is Some <==> (has_arc(
                brighter_flags(grayscale@, width as int, x as int, y as int, self.threshold as int),
                9,
            ) || has_arc(
                darker_flags(grayscale@, width as int, x as int, y as int, self.threshold as int),
                9,
            )),
            r matches Some(s) ==> s == score_prefix(grayscale@, width as int, x as int, y as int, 16),
    {
        let t = self.threshold as i16;
        let c = center_pixel(grayscale, width, x, y) as i16;
        let mut brighter = [false; 16];
        let mut darker = [false; 16];
        let mut score: u32 = 0;
        let ghost img = grayscale@;
        let ghost ww = width as int;
        let mut i: usize = 0;
        while i < 16
            invariant
                0 <= i <= 16,
                img == grayscale@,
                ww == width as int,
                ring_inside(img, ww, x as int, y as int),
                c == pixel_at(img, ww, x as int, y as int),
                t == self.threshold,
                brighter@.len() == 16,
                darker@.len() == 16,
                forall|k: int|
                    0 <= k < i ==> #[trigger] brighter@[k] == (ring_diff(img, ww, x as int, y as int, k)
                        > t),
                forall|k: int|
                    0 <= k < i ==> #[trigger] darker@[k] == (ring_diff(img, ww, x as int, y as int, k)
                        < -t),
                score == score_prefix(img, ww, x as int, y as int, i as int),
                score <= 255 * i,
            decreases 16 - i,
        {
            let p = ring_pixel(grayscale, width, x, y, i) as i16;
            let diff = p - c;
            brighter[i] = diff > t;
            darker[i] = diff < -t;
            let a: u32 = if diff < 0 { (-diff) as u32 } else { diff as u32 };
            score = score + a;
            i = i + 1;
        }
        proof {
            assert(brighter@ =~= brighter_flags(img, ww, x as int, y as int, t as int));
            assert(darker@ =~= darker_flags(img, ww, x as int, y as int, t as int));
        }
        let has_bright_arc = self.has_contiguous_arc(&brighter, 9);
        let has_dark_arc = self.has_contiguous_arc(&darker, 9);
        if has_bright_arc || has_dark_arc {
            Some(score)
        } else {
            None
        }
    }

    /// Detect FAST corners in a grayscale image, skipping a 3-pixel border;
    /// corners come in row-major order.
    pub fn detect_corners(&self, grayscale: &[u8], width: u32, height: u32) -> (r: Vec<Corner>)
        requires
            width >= 7 && height >= 7 ==> width <= i32::MAX && height <= i32::MAX && width * height
                <= grayscale@.len(),
        ensures
            r@ == fast_corners(grayscale@, width as int, height as int, self.threshold as int),
    {
        let mut corners: Vec<Corner> = Vec::new();
        let w = width as usize;
        let h = height as usize;
        if w < 7 || h < 7 {
            proof {
                if h < 7 {
                    assert(fast_corners(grayscale@, w as int, h as int, self.threshold as int)
                        =~= seq![]);
                } else {
                    lemma_empty_rows(grayscale@, w as int, h as int, self.threshold as int, h - 3);
                }
            }
            return corners;
        }
        let mut y: usize = 3;
        while y + 3 < h
            invariant
                3 <= y <= h - 3,
                w == width,
                h == height,
                7 <= w,
                7 <= h,
                w <= i32::MAX,
                h <= i32::MAX,
                w * h <= grayscale@.len(),
                corners@ == corners_upto(grayscale@, w as int, h as int, self.threshold as int, y as int),
            decreases h - y,
        {
            let ghost before = corners@;
            let mut x: usize = 3;
            while x + 3 < w
                invariant
                    3 <= x <= w - 3,
                    3 <= y,
                    y + 3 < h,
                    w == width,
                    h == height,
                    7 <= w,
                    w <= i32::MAX,
                    h <= i32::MAX,
                    w * h <= grayscale@.len(),
                    corners@ == before + row_corners(
                        grayscale@,
                        w as int,
                        self.threshold as int,
                        y as int,
                        x as int,
                    ),
                decreases w - x,
            {
                proof {
                    let ww = w as int;
                    let yy = y as int;
                    assert((yy + 3) * ww + ww <= h * ww) by (nonlinear_arith)
                        requires
                            yy + 4 <= h,
                            ww >= 0,
                    ;
                    assert(h * ww == w * h) by (nonlinear_arith)
                        requires
                            ww == w,
                    ;
                }
                if self.quick_reject_test(grayscale, w, x, y) {
                    match self.full_fast9_test(grayscale, w, x, y) {
                        Some(score) => {
                            corners.push(Corner { x: x as u32, y: y as u32, score_sum: score });
                            proof {
                                assert(corners@ =~= before + row_corners(
                                    grayscale@,
                                    w as int,
                                    self.threshold as int,
                                    y as int,
                                    x + 1,
                                ));
                            }
                        },
                        None => {},
                    }
                }
                x = x + 1;
            }
            y = y + 1;
        }
        corners
    }
}

proof fn lemma_empty_rows(img: Seq<u8>, w: int, h: int, t: int, ye: int)
    requires
        w < 7,
    ensures
        corners_upto(img, w, h, t, ye) =~= seq![],
    decreases ye,
{
    if ye > 3 {
        lemma_empty_rows(img, w, h, t, ye - 1);
        assert(row_corners(img, w, t, ye - 1, w - 3) =~= seq![]);
    }
}

/// Lowering the threshold keeps every corner: a pixel that is a corner at
/// threshold `t2` is also one at any `t1 <= t2`.
pub proof fn lemma_corner_threshold_monotone(img: Seq<u8>, w: int, x: int, y: int, t1: int, t2: int)
    requires
        t1 <= t2,
        is_fast_corner(img, w, x, y, t2),
    ensures
        is_fast_corner(img, w, x, y, t1),
{
    let b1 = brighter_flags(img, w, x, y, t1);
    let b2 = brighter_flags(img, w, x, y, t2);
    let d1 = darker_flags(img, w, x, y, t1);
    let d2 = darker_flags(img, w, x, y, t2);
    assert forall|i: int| 0 <= i < 16 && #[trigger] b2[i] implies b1[i] by {}
    assert forall|i: int| 0 <= i < 16 && #[trigger] d2[i] implies d1[i] by {}
    if has_arc(b2, 9) {
        let s = choose|s: int| 0 <= s < 16 && #[trigger] window_all(b2, s, 9);
        assert forall|k: int| 0 <= k < 9 implies #[trigger] b1[(s + k) % 16] by {
            assert(b2[(s + k) % 16]);
        }
        assert(window_all(b1, s, 9));
    }
    if has_arc(d2, 9) {
        let s = choose|s: int| 0 <= s < 16 && #[trigger] window_all(d2, s, 9);
        assert forall|k: int| 0 <= k < 9 implies #[trigger] d1[(s + k) % 16] by {
            assert(d2[(s + k) % 16]);
        }
        assert(window_all(d1, s, 9));
    }
}

proof fn lemma_row_threshold_monotone(img: Seq<u8>, w: int, y: int, xe: int, t1: int, t2: int)
    requires
        t1 <= t2,
    ensures
        row_corners(img, w, t2, y, xe).len() <= row_corners(img, w, t1, y, xe).len(),
    decreases xe,
{
    if xe > 3 {
        lemma_row_threshold_monotone(img, w, y, xe - 1, t1, t2);
        if is_fast_corner(img, w, xe - 1, y, t2) {
            lemma_corner_threshold_monotone(img, w, xe - 1, y, t1, t2);
        }
    }
}

proof fn lemma_upto_threshold_monotone(img: Seq<u8>, w: int, h: int, ye: int, t1: int, t2: int)
    requires
        t1 <= t2,
    ensures
        corners_upto(img, w, h, t2, ye).len() <= corners_upto(img, w, h, t1, ye).len(),
    decreases ye,
{
    if ye > 3 {
        lemma_upto_threshold_monotone(img, w, h, ye - 1, t1, t2);
        lemma_row_threshold_monotone(img, w, ye - 1, w - 3, t1, t2);
    }
}

/// A lower threshold finds at least as many corners.
pub proof fn lemma_lower_threshold_more_corners(img: Seq<u8>, w: int, h: int, t1: int, t2: int)
    requires
        t1 <= t2,
    ensures
        fast_corners(img, w, h, t2).len() <= fast_corners(img, w, h, t1).len(),
{
    lemma_upto_threshold_monotone(img, w, h, h - 3, t1, t2);
}

proof fn lemma_row_inside(img: Seq<u8>, w: int, t: int, y: int, xe: int)
    requires
        0 <= y <= u32::MAX,
        xe <= u32::MAX,
    ensures
        forall|i: int|
            0 <= i < row_corners(img, w, t, y, xe).len() ==> {
                let c = #[trigger] row_corners(img, w, t, y, xe)[i];
                &&& 3 <= c.x < xe
                &&& c.y == y
            },
    decreases xe,
{
    if xe > 3 {
        lemma_row_inside(img, w, t, y, xe - 1);
        let prev = row_corners(img, w, t, y, xe - 1);
        assert forall|i: int| 0 <= i < prev.len() implies row_corners(img, w, t, y, xe)[i]
            == prev[i] by {}
    }
}

proof fn lemma_upto_inside(img: Seq<u8>, w: int, h: int, t: int, ye: int)
    requires
        ye <= u32::MAX,
        w <= u32::MAX,
    ensures
        forall|i: int|
            0 <= i < corners_upto(img, w, h, t, ye).len() ==> {
                let c = #[trigger] corners_upto(img, w, h, t, ye)[i];
                &&& 3 <= c.x < w - 3
                &&& 3 <= c.y < ye
            },
    decreases ye,
{
    if ye > 3 {
        lemma_upto_inside(img, w, h, t, ye - 1);
        lemma_row_inside(img, w, t, ye - 1, w - 3);
        let a = corners_upto(img, w, h, t, ye - 1);
        let b = row_corners(img, w, t, ye - 1, w - 3);
        assert forall|i: int| 0 <= i < a.len() + b.len() implies {
            let c = #[trigger] corners_upto(img, w, h, t, ye)[i];
            &&& 3 <= c.x < w - 3
            &&& 3 <= c.y < ye
        } by {
            if i < a.len() {
                assert(corners_upto(img, w, h, t, ye)[i] == a[i]);
            } else {
                assert(corners_upto(img, w, h, t, ye)[i] == b[i - a.len()]);
            }
        }
    }
}

/// Every detected corner lies at least 3 pixels inside the image border.
pub proof fn lemma_corners_inside_border(img: Seq<u8>, w: u32, h: u32, t: int)
    ensures
        forall|i: int|
            0 <= i < fast_corners(img, w as int, h as int, t).len() ==> {
                let c = #[trigger] fast_corners(img, w as int, h as int, t)[i];
                &&& 3 <= c.x < w - 3
                &&& 3 <= c.y < h - 3
            },
{
    lemma_upto_inside(img, w as int, h as int, t, h - 3);
}

} // verus!
