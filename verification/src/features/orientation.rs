//! Intensity moments of a keypoint's patch, from which its orientation is
//! computed, and the test that the patch lies inside the image.

use vstd::prelude::*;

verus! {

/// Default patch radius for orientation computation (15 pixels).
pub const DEFAULT_PATCH_RADIUS: usize = 15;

/// Check that a patch of the given radius around (x, y) lies inside a
/// `width` x `height` image.
pub fn has_valid_orientation_patch(
    width: usize,
    height: usize,
    x: usize,
    y: usize,
    patch_radius: usize,
) -> (b: bool)
    ensures
        b == (x >= patch_radius && y >= patch_radius && x + patch_radius < width && y
            + patch_radius < height),
{
    x >= patch_radius && y >= patch_radius && patch_radius < width && x < width - patch_radius
        && patch_radius < height && y < height - patch_radius
}

/// Pixel (x + dx, y + dy) of a row-major image of width `w` lies among its
/// `n` bytes.
pub open spec fn patch_index_ok(n: int, w: int, x: int, y: int, dx: int, dy: int) -> bool {
    0 <= (y + dy) * w + (x + dx) < n
}

/// Intensity of pixel (x, y) in a row-major image of width `w`.
pub open spec fn pixel(img: Seq<u8>, w: int, x: int, y: int) -> int {
    img[y * w + x] as int
}

/// Moments (sum of dx * I, sum of dy * I) over the pixels (x + dx, y + dy) of
/// row `dy` with dx from -r to -r + j - 1 that lie in the disk of radius r.
pub open spec fn row_moments(img: Seq<u8>, w: int, x: int, y: int, r: int, dy: int, j: int) -> (
    int,
    int,
)
    decreases j,
{
    if j <= 0 {
        (0, 0)
    } else {
        let prev = row_moments(img, w, x, y, r, dy, j - 1);
        let dx = -r + j - 1;
        if dx * dx + dy * dy <= r * r {
            let i = pixel(img, w, x + dx, y + dy);
            (prev.0 + dx * i, prev.1 + dy * i)
        } else {
            prev
        }
    }
}

/// Moments over the rows dy from -r to -r + k - 1 of the disk of radius r.
pub open spec fn disk_moments(img: Seq<u8>, w: int, x: int, y: int, r: int, k: int) -> (int, int)
    decreases k,
{
    if k <= 0 {
        (0, 0)
    } else {
        let prev = disk_moments(img, w, x, y, r, k - 1);
        let row = row_moments(img, w, x, y, r, -r + k - 1, 2 * r + 1);
        (prev.0 + row.0, prev.1 + row.1)
    }
}

/// Moments over the first `k` offsets (dx, dy) of `offs`.
pub open spec fn offset_moments_spec(
    img: Seq<u8>,
    w: int,
    x: int,
    y: int,
    offs: Seq<(i32, i32)>,
    k: int,
) -> (int, int)
    decreases k,
{
    if k <= 0 {
        (0, 0)
    } else {
        let prev = offset_moments_spec(img, w, x, y, offs, k - 1);
        let dx = offs[k - 1].0 as int;
        let dy = offs[k - 1].1 as int;
        let i = pixel(img, w, x + dx, y + dy);
        (prev.0 + dx * i, prev.1 + dy * i)
    }
}

proof fn lemma_term_bound(d: int, i: int, r: int)
    requires
        -r <= d <= r,
        0 <= i <= 255,
    ensures
        -(r * 255) <= d * i <= r * 255,
{
    assert(-(r * 255) <= d * i <= r * 255) by (nonlinear_arith)
        requires
            -r <= d <= r,
            0 <= i <= 255,
    ;
}

proof fn lemma_row_bound(img: Seq<u8>, w: int, x: int, y: int, r: int, dy: int, j: int)
    requires
        0 <= j <= 2 * r + 1,
        -r <= dy <= r,
        forall|k: int| 0 <= k < img.len() ==> 0 <= #[trigger] img[k] <= 255,
        forall|dx: int| -r <= dx <= r ==> #[trigger] patch_index_ok(img.len() as int, w, x, y, dx, dy),
    ensures
        -(j * (r * 255)) <= row_moments(img, w, x, y, r, dy, j).0 <= j * (r * 255),
        -(j * (r * 255)) <= row_moments(img, w, x, y, r, dy, j).1 <= j * (r * 255),
    decreases j,
{
    if j > 0 {
        lemma_row_bound(img, w, x, y, r, dy, j - 1);
        let dx = -r + j - 1;
        let i = pixel(img, w, x + dx, y + dy);
        assert(patch_index_ok(img.len() as int, w, x, y, dx, dy));
        lemma_term_bound(dx, i, r);
        lemma_term_bound(dy, i, r);
        assert((j - 1) * (r * 255) + r * 255 == j * (r * 255)) by (nonlinear_arith);
    }
}

proof fn lemma_disk_bound(img: Seq<u8>, w: int, x: int, y: int, r: int, k: int)
    requires
        0 <= k <= 2 * r + 1,
        r >= 0,
        forall|q: int| 0 <= q < img.len() ==> 0 <= #[trigger] img[q] <= 255,
        forall|dx: int, dy: int|
            -r <= dx <= r && -r <= dy <= r ==> #[trigger] patch_index_ok(img.len() as int, w, x, y, dx, dy),
    ensures
        -(k * ((2 * r + 1) * (r * 255))) <= disk_moments(img, w, x, y, r, k).0 <= k * ((2 * r + 1) * (r
            * 255)),
        -(k * ((2 * r + 1) * (r * 255))) <= disk_moments(img, w, x, y, r, k).1 <= k * ((2 * r + 1) * (r
            * 255)),
    decreases k,
{
    if k > 0 {
        lemma_disk_bound(img, w, x, y, r, k - 1);
        let dy = -r + k - 1;
        lemma_row_bound(img, w, x, y, r, dy, 2 * r + 1);
        assert((k - 1) * ((2 * r + 1) * (r * 255)) + (2 * r + 1) * (r * 255) == k * ((2 * r + 1) * (r
            * 255))) by (nonlinear_arith);
    }
}

proof fn lemma_patch_indices(n: int, w: int, h: int, x: int, y: int, r: int)
    requires
        r >= 0,
        x >= r,
        y >= r,
        x + r < w,
        y + r < h,
        w * h <= n,
    ensures
        forall|dx: int, dy: int|
            -r <= dx <= r && -r <= dy <= r ==> #[trigger] patch_index_ok(n, w, x, y, dx, dy),
{
    assert forall|dx: int, dy: int| -r <= dx <= r && -r <= dy <= r implies #[trigger] patch_index_ok(
        n,
        w,
        x,
        y,
        dx,
        dy,
    ) by {
        assert(0 <= (y + dy) * w + (x + dx) < h * w) by (nonlinear_arith)
            requires
                0 <= y + dy < h,
                0 <= x + dx < w,
        ;
        assert(h * w == w * h) by (nonlinear_arith);
    }
}

proof fn lemma_small_square(d: int)
    requires
        -32768 <= d <= 32768,
    ensures
        0 <= d * d <= 0x4000_0000,
{
    assert(0 <= d * d <= 0x4000_0000) by (nonlinear_arith)
        requires
            -32768 <= d <= 32768,
    ;
}

/// Largest magnitude the moments of a patch of radius at most 32767 can have.
pub open spec fn moment_limit() -> int {
    35885869139066625int
}

proof fn lemma_moment_limit(r: int, k: int)
    requires
        0 <= r <= 32767,
        0 <= k <= 2 * r + 1,
    ensures
        0 <= k * ((2 * r + 1) * (r * 255)) <= moment_limit(),
        0 <= k * (r * 255) <= (2 * r + 1) * (r * 255) <= moment_limit(),
{
    assert(0 <= k * ((2 * r + 1) * (r * 255)) <= 35885869139066625) by (nonlinear_arith)
        requires
            0 <= r <= 32767,
            0 <= k <= 2 * r + 1,
    ;
    assert(0 <= k * (r * 255) <= (2 * r + 1) * (r * 255) <= 35885869139066625)
        by (nonlinear_arith)
        requires
            0 <= r <= 32767,
            0 <= k <= 2 * r + 1,
    ;
}

/// Intensity moments (sum of dx * I, sum of dy * I) of the pixels within
/// distance `patch_radius` of (x, y), the patch lying inside the image.
pub fn patch_moments(
    image: &[u8],
    width: usize,
    height: usize,
    x: usize,
    y: usize,
    patch_radius: usize,
) -> (m: (i64, i64))
    requires
        patch_radius <= 32767,
        x >= patch_radius,
        y >= patch_radius,
        x + patch_radius < width,
        y + patch_radius < height,
        x + patch_radius <= i32::MAX,
        y + patch_radius <= i32::MAX,
        width * height <= image@.len(),
    ensures
        (m.0 as int, m.1 as int) == disk_moments(
            image@,
            width as int,
            x as int,
            y as int,
            patch_radius as int,
            2 * patch_radius + 1,
        ),
{
    let ghost img = image@;
    let ghost w = width as int;
    let ghost gx = x as int;
    let ghost gy = y as int;
    let ghost gr = patch_radius as int;
    proof {
        lemma_patch_indices(img.len() as int, w, height as int, gx, gy, gr);
        assert forall|q: int| 0 <= q < img.len() implies 0 <= #[trigger] img[q] <= 255 by {}
        lemma_small_square(gr);
    }
    let r: i64 = patch_radius as i64;
    let r2: i64 = r * r;
    let mut m10: i64 = 0;
    let mut m01: i64 = 0;
    let mut dy: i64 = -r;
    while dy <= r
        invariant
            img == image@,
            w == width,
            gx == x,
            gy == y,
            gr == patch_radius,
            r == gr,
            r2 == r * r,
            0 <= r <= 32767,
            -r <= dy <= r + 1,
            x + r <= i32::MAX,
            y + r <= i32::MAX,
            x >= r,
            y >= r,
            forall|q: int| 0 <= q < img.len() ==> 0 <= #[trigger] img[q] <= 255,
            forall|dx: int, dy2: int|
                -gr <= dx <= gr && -gr <= dy2 <= gr ==> #[trigger] patch_index_ok(
                    img.len() as int,
                    w,
                    gx,
                    gy,
                    dx,
                    dy2,
                ),
            (m10 as int, m01 as int) == disk_moments(img, w, gx, gy, gr, dy + r),
        decreases r + 1 - dy,
    {
        let mut row10: i64 = 0;
        let mut row01: i64 = 0;
        let mut dx: i64 = -r;
        while dx <= r
            invariant
                img == image@,
                w == width,
                gx == x,
                gy == y,
                gr == patch_radius,
                r == gr,
                r2 == r * r,
                0 <= r <= 32767,
                -r <= dy <= r,
                -r <= dx <= r + 1,
                x + r <= i32::MAX,
                y + r <= i32::MAX,
                x >= r,
                y >= r,
                forall|q: int| 0 <= q < img.len() ==> 0 <= #[trigger] img[q] <= 255,
                forall|dx2: int, dy2: int|
                    -gr <= dx2 <= gr && -gr <= dy2 <= gr ==> #[trigger] patch_index_ok(
                        img.len() as int,
                        w,
                        gx,
                        gy,
                        dx2,
                        dy2,
                    ),
                (row10 as int, row01 as int) == row_moments(img, w, gx, gy, gr, dy as int, dx + r),
            decreases r + 1 - dx,
        {
            proof {
                lemma_small_square(dx as int);
                lemma_small_square(dy as int);
                lemma_row_bound(img, w, gx, gy, gr, dy as int, dx + r + 1);
                lemma_moment_limit(gr, dx + r + 1);
            }
            if dx * dx + dy * dy <= r2 {
                let px: usize = (x as i64 + dx) as usize;
                let py: usize = (y as i64 + dy) as usize;
                proof {
                    assert(patch_index_ok(img.len() as int, w, gx, gy, dx as int, dy as int));
                    assert(px == gx + dx && py == gy + dy);
                    assert(py * width == (gy + dy) * w);
                    assert(py * width + px < img.len());
                    assert(img.len() == image.len());
                }
                let intensity: i64 = image[py * width + px] as i64;
                proof {
                    lemma_term_bound(dx as int, intensity as int, gr);
                    lemma_term_bound(dy as int, intensity as int, gr);
                    assert(intensity == pixel(img, w, gx + dx, gy + dy));
                }
                row10 = row10 + dx * intensity;
                row01 = row01 + dy * intensity;
            }
            dx = dx + 1;
        }
        proof {
            lemma_disk_bound(img, w, gx, gy, gr, dy + r + 1);
            lemma_moment_limit(gr, dy + r + 1);
        }
        m10 = m10 + row10;
        m01 = m01 + row01;
        dy = dy + 1;
    }
    (m10, m01)
}

/// The pixel offsets (dx, dy) used for keypoint orientation: the
/// radius-15 disk as sampled by the standard table, 685 offsets, each
/// within 15 pixels on both axes.
pub fn circle_offsets_r15() -> (o: [(i32, i32); 685])
    ensures
        forall|i: int| 0 <= i < 685 ==> -15 <= (#[trigger] o@[i]).0 <= 15 && -15 <= o@[i].1 <= 15,
{
    [
    // Row -15
    (-1, -15), (0, -15), (1, -15),
    // Row -14
    (-4, -14), (-3, -14), (-2, -14), (-1, -14), (0, -14), (1, -14), (2, -14), (3, -14), (4, -14),
    // Row -13
    (-6, -13), (-5, -13), (-4, -13), (-3, -13), (-2, -13), (-1, -13), (0, -13), (1, -13), (2, -13), (3, -13), (4, -13), (5, -13), (6, -13),
    // Row -12
    (-8, -12), (-7, -12), (-6, -12), (-5, -12), (-4, -12), (-3, -12), (-2, -12), (-1, -12), (0, -12), (1, -12), (2, -12), (3, -12), (4, -12), (5, -12), (6, -12), (7, -12), (8, -12),
    // Row -11
    (-9, -11), (-8, -11), (-7, -11), (-6, -11), (-5, -11), (-4, -11), (-3, -11), (-2, -11), (-1, -11), (0, -11), (1, -11), (2, -11), (3, -11), (4, -11), (5, -11), (6, -11), (7, -11), (8, -11), (9, -11),
    // Row -10
    (-10, -10), (-9, -10), (-8, -10), (-7, -10), (-6, -10), (-5, -10), (-4, -10), (-3, -10), (-2, -10), (-1, -10), (0, -10), (1, -10), (2, -10), (3, -10), (4, -10), (5, -10), (6, -10), (7, -10), (8, -10), (9, -10), (10, -10),
    // Row -9
    (-11, -9), (-10, -9), (-9, -9), (-8, -9), (-7, -9), (-6, -9), (-5, -9), (-4, -9), (-3, -9), (-2, -9), (-1, -9), (0, -9), (1, -9), (2, -9), (3, -9), (4, -9), (5, -9), (6, -9), (7, -9), (8, -9), (9, -9), (10, -9), (11, -9),
    // Row -8
    (-12, -8), (-11, -8), (-10, -8), (-9, -8), (-8, -8), (-7, -8), (-6, -8), (-5, -8), (-4, -8), (-3, -8), (-2, -8), (-1, -8), (0, -8), (1, -8), (2, -8), (3, -8), (4, -8), (5, -8), (6, -8), (7, -8), (8, -8), (9, -8), (10, -8), (11, -8), (12, -8),
    // Row -7
    (-12, -7), (-11, -7), (-10, -7), (-9, -7), (-8, -7), (-7, -7), (-6, -7), (-5, -7), (-4, -7), (-3, -7), (-2, -7), (-1, -7), (0, -7), (1, -7), (2, -7), (3, -7), (4, -7), (5, -7), (6, -7), (7, -7), (8, -7), (9, -7), (10, -7), (11, -7), (12, -7),
    // Row -6
    (-13, -6), (-12, -6), (-11, -6), (-10, -6), (-9, -6), (-8, -6), (-7, -6), (-6, -6), (-5, -6), (-4, -6), (-3, -6), (-2, -6), (-1, -6), (0, -6), (1, -6), (2, -6), (3, -6), (4, -6), (5, -6), (6, -6), (7, -6), (8, -6), (9, -6), (10, -6), (11, -6), (12, -6), (13, -6),
    // Row -5
    (-13, -5), (-12, -5), (-11, -5), (-10, -5), (-9, -5), (-8, -5), (-7, -5), (-6, -5), (-5, -5), (-4, -5), (-3, -5), (-2, -5), (-1, -5), (0, -5), (1, -5), (2, -5), (3, -5), (4, -5), (5, -5), (6, -5), (7, -5), (8, -5), (9, -5), (10, -5), (11, -5), (12, -5), (13, -5),
    // Row -4
    (-14, -4), (-13, -4), (-12, -4), (-11, -4), (-10, -4), (-9, -4), (-8, -4), (-7, -4), (-6, -4), (-5, -4), (-4, -4), (-3, -4), (-2, -4), (-1, -4), (0, -4), (1, -4), (2, -4), (3, -4), (4, -4), (5, -4), (6, -4), (7, -4), (8, -4), (9, -4), (10, -4), (11, -4), (12, -4), (13, -4), (14, -4),
    // Row -3
    (-14, -3), (-13, -3), (-12, -3), (-11, -3), (-10, -3), (-9, -3), (-8, -3), (-7, -3), (-6, -3), (-5, -3), (-4, -3), (-3, -3), (-2, -3), (-1, -3), (0, -3), (1, -3), (2, -3), (3, -3), (4, -3), (5, -3), (6, -3), (7, -3), (8, -3), (9, -3), (10, -3), (11, -3), (12, -3), (13, -3), (14, -3),
    // Row -2
    (-14, -2), (-13, -2), (-12, -2), (-11, -2), (-10, -2), (-9, -2), (-8, -2), (-7, -2), (-6, -2), (-5, -2), (-4, -2), (-3, -2), (-2, -2), (-1, -2), (0, -2), (1, -2), (2, -2), (3, -2), (4, -2), (5, -2), (6, -2), (7, -2), (8, -2), (9, -2), (10, -2), (11, -2), (12, -2), (13, -2), (14, -2),
    // Row -1
    (-15, -1), (-14, -1), (-13, -1), (-12, -1), (-11, -1), (-10, -1), (-9, -1), (-8, -1), (-7, -1), (-6, -1), (-5, -1), (-4, -1), (-3, -1), (-2, -1), (-1, -1), (0, -1), (1, -1), (2, -1), (3, -1), (4, -1), (5, -1), (6, -1), (7, -1), (8, -1), (9, -1), (10, -1), (11, -1), (12, -1), (13, -1), (14, -1), (15, -1),
    // Row 0
    (-15, 0), (-14, 0), (-13, 0), (-12, 0), (-11, 0), (-10, 0), (-9, 0), (-8, 0), (-7, 0), (-6, 0), (-5, 0), (-4, 0), (-3, 0), (-2, 0), (-1, 0), (0, 0), (1, 0), (2, 0), (3, 0), (4, 0), (5, 0), (6, 0), (7, 0), (8, 0), (9, 0), (10, 0), (11, 0), (12, 0), (13, 0), (14, 0), (15, 0),
    // Row 1
    (-15, 1), (-14, 1), (-13, 1), (-12, 1), (-11, 1), (-10, 1), (-9, 1), (-8, 1), (-7, 1), (-6, 1), (-5, 1), (-4, 1), (-3, 1), (-2, 1), (-1, 1), (0, 1), (1, 1), (2, 1), (3, 1), (4, 1), (5, 1), (6, 1), (7, 1), (8, 1), (9, 1), (10, 1), (11, 1), (12, 1), (13, 1), (14, 1), (15, 1),
    // Row 2
    (-14, 2), (-13, 2), (-12, 2), (-11, 2), (-10, 2), (-9, 2), (-8, 2), (-7, 2), (-6, 2), (-5, 2), (-4, 2), (-3, 2), (-2, 2), (-1, 2), (0, 2), (1, 2), (2, 2), (3, 2), (4, 2), (5, 2), (6, 2), (7, 2), (8, 2), (9, 2), (10, 2), (11, 2), (12, 2), (13, 2), (14, 2),
    // Row 3
    (-14, 3), (-13, 3), (-12, 3), (-11, 3), (-10, 3), (-9, 3), (-8, 3), (-7, 3), (-6, 3), (-5, 3), (-4, 3), (-3, 3), (-2, 3), (-1, 3), (0, 3), (1, 3), (2, 3), (3, 3), (4, 3), (5, 3), (6, 3), (7, 3), (8, 3), (9, 3), (10, 3), (11, 3), (12, 3), (13, 3), (14, 3),
    // Row 4
    (-14, 4), (-13, 4), (-12, 4), (-11, 4), (-10, 4), (-9, 4), (-8, 4), (-7, 4), (-6, 4), (-5, 4), (-4, 4), (-3, 4), (-2, 4), (-1, 4), (0, 4), (1, 4), (2, 4), (3, 4), (4, 4), (5, 4), (6, 4), (7, 4), (8, 4), (9, 4), (10, 4), (11, 4), (12, 4), (13, 4), (14, 4),
    // Row 5
    (-13, 5), (-12, 5), (-11, 5), (-10, 5), (-9, 5), (-8, 5), (-7, 5), (-6, 5), (-5, 5), (-4, 5), (-3, 5), (-2, 5), (-1, 5), (0, 5), (1, 5), (2, 5), (3, 5), (4, 5), (5, 5), (6, 5), (7, 5), (8, 5), (9, 5), (10, 5), (11, 5), (12, 5), (13, 5),
    // Row 6
    (-13, 6), (-12, 6), (-11, 6), (-10, 6), (-9, 6), (-8, 6), (-7, 6), (-6, 6), (-5, 6), (-4, 6), (-3, 6), (-2, 6), (-1, 6), (0, 6), (1, 6), (2, 6), (3, 6), (4, 6), (5, 6), (6, 6), (7, 6), (8, 6), (9, 6), (10, 6), (11, 6), (12, 6), (13, 6),
    // Row 7
    (-12, 7), (-11, 7), (-10, 7), (-9, 7), (-8, 7), (-7, 7), (-6, 7), (-5, 7), (-4, 7), (-3, 7), (-2, 7), (-1, 7), (0, 7), (1, 7), (2, 7), (3, 7), (4, 7), (5, 7), (6, 7), (7, 7), (8, 7), (9, 7), (10, 7), (11, 7), (12, 7),
    // Row 8
    (-12, 8), (-11, 8), (-10, 8), (-9, 8), (-8, 8), (-7, 8), (-6, 8), (-5, 8), (-4, 8), (-3, 8), (-2, 8), (-1, 8), (0, 8), (1, 8), (2, 8), (3, 8), (4, 8), (5, 8), (6, 8), (7, 8), (8, 8), (9, 8), (10, 8), (11, 8), (12, 8),
    // Row 9
    (-11, 9), (-10, 9), (-9, 9), (-8, 9), (-7, 9), (-6, 9), (-5, 9), (-4, 9), (-3, 9), (-2, 9), (-1, 9), (0, 9), (1, 9), (2, 9), (3, 9), (4, 9), (5, 9), (6, 9), (7, 9), (8, 9), (9, 9), (10, 9), (11, 9),
    // Row 10
    (-10, 10), (-9, 10), (-8, 10), (-7, 10), (-6, 10), (-5, 10), (-4, 10), (-3, 10), (-2, 10), (-1, 10), (0, 10), (1, 10), (2, 10), (3, 10), (4, 10), (5, 10), (6, 10), (7, 10), (8, 10), (9, 10), (10, 10),
    // Row 11
    (-9, 11), (-8, 11), (-7, 11), (-6, 11), (-5, 11), (-4, 11), (-3, 11), (-2, 11), (-1, 11), (0, 11), (1, 11), (2, 11), (3, 11), (4, 11), (5, 11), (6, 11), (7, 11), (8, 11), (9, 11),
    // Row 12
    (-8, 12), (-7, 12), (-6, 12), (-5, 12), (-4, 12), (-3, 12), (-2, 12), (-1, 12), (0, 12), (1, 12), (2, 12), (3, 12), (4, 12), (5, 12), (6, 12), (7, 12), (8, 12),
    // Row 13
    (-6, 13), (-5, 13), (-4, 13), (-3, 13), (-2, 13), (-1, 13), (0, 13), (1, 13), (2, 13), (3, 13), (4, 13), (5, 13), (6, 13),
    // Row 14
    (-4, 14), (-3, 14), (-2, 14), (-1, 14), (0, 14), (1, 14), (2, 14), (3, 14), (4, 14),
    // Row 15
    (-1, 15), (0, 15), (1, 15),
    ]
}

/// Intensity moments (sum of dx * I, sum of dy * I) of the pixels at the
/// given offsets (dx, dy) from (x, y), all of which lie inside the image.
pub fn offset_moments(image: &[u8], width: usize, x: usize, y: usize, offsets: &[(i32, i32)]) -> (m: (
    i64,
    i64,
))
    requires
        offsets@.len() <= 0x80_0000,
        x <= i32::MAX,
        y <= i32::MAX,
        forall|k: int|
            0 <= k < offsets@.len() ==> {
                let dx = (#[trigger] offsets@[k]).0 as int;
                let dy = offsets@[k].1 as int;
                &&& 0 <= x + dx
                &&& 0 <= y + dy
                &&& x + dx < width
                &&& (y + dy) * width + (x + dx) < image@.len()
            },
    ensures
        (m.0 as int, m.1 as int) == offset_moments_spec(
            image@,
            width as int,
            x as int,
            y as int,
            offsets@,
            offsets@.len() as int,
        ),
{
    let mut m10: i64 = 0;
    let mut m01: i64 = 0;
    let mut k: usize = 0;
    while k < offsets.len()
        invariant
            0 <= k <= offsets@.len(),
            offsets@.len() <= 0x80_0000,
            x <= i32::MAX,
            y <= i32::MAX,
            forall|q: int|
                0 <= q < offsets@.len() ==> {
                    let dx = (#[trigger] offsets@[q]).0 as int;
                    let dy = offsets@[q].1 as int;
                    &&& 0 <= x + dx
                    &&& 0 <= y + dy
                    &&& x + dx < width
                    &&& (y + dy) * width + (x + dx) < image@.len()
                },
            (m10 as int, m01 as int) == offset_moments_spec(
                image@,
                width as int,
                x as int,
                y as int,
                offsets@,
                k as int,
            ),
            -(k * 0x80_0000_0000) <= m10 <= k * 0x80_0000_0000,
            -(k * 0x80_0000_0000) <= m01 <= k * 0x80_0000_0000,
        decreases offsets@.len() - k,
    {
        let (dx, dy) = offsets[k];
        proof {
            assert(offsets@[k as int] == (dx, dy));
        }
        let px: usize = (x as i64 + dx as i64) as usize;
        let py: usize = (y as i64 + dy as i64) as usize;
        proof {
            assert(px == x + dx && py == y + dy);
            assert(0 <= (y + dy) * width + (x + dx) < image@.len());
            assert(py * width == (y + dy) * width);
            assert(py * width + px < image@.len());
            assert(image@.len() == image.len());
        }
        let intensity: i64 = image[py * width + px] as i64;
        proof {
            assert(-0x80_0000_0000 <= dx * intensity <= 0x80_0000_0000) by (nonlinear_arith)
                requires
                    -0x8000_0000 <= dx <= 0x7fff_ffff,
                    0 <= intensity <= 255,
            ;
            assert(-0x80_0000_0000 <= dy * intensity <= 0x80_0000_0000) by (nonlinear_arith)
                requires
                    -0x8000_0000 <= dy <= 0x7fff_ffff,
                    0 <= intensity <= 255,
            ;
            assert((k + 1) * 0x80_0000_0000 <= 0x80_0000 * 0x80_0000_0000) by (nonlinear_arith)
                requires
                    k + 1 <= 0x80_0000,
            ;
        }
        m10 = m10 + (dx as i64) * intensity;
        m01 = m01 + (dy as i64) * intensity;
        k = k + 1;
    }
    (m10, m01)
}

} // verus!
