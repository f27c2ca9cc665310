//! Image downsampling for faster lighting analysis.

use vstd::prelude::*;

verus! {

/// Linear index of the `k`-th pixel (k = 4 * dy + dx) of block (bx, by).
pub open spec fn block_index(w: int, bx: int, by: int, k: int) -> int {
    (by * 4 + k / 4) * w + bx * 4 + k % 4
}

/// Sum of the pixels, among the first `k` of block (bx, by), that lie inside `gray`.
pub open spec fn block_sum(gray: Seq<u8>, w: int, bx: int, by: int, k: int) -> int
    decreases k,
{
    if k <= 0 {
        0
    } else {
        let idx = block_index(w, bx, by, k - 1);
        block_sum(gray, w, bx, by, k - 1) + (if idx < gray.len() { gray[idx] as int } else { 0 })
    }
}

/// Number of pixels, among the first `k` of block (bx, by), that lie inside `gray`.
pub open spec fn block_count(gray: Seq<u8>, w: int, bx: int, by: int, k: int) -> int
    decreases k,
{
    if k <= 0 {
        0
    } else {
        let idx = block_index(w, bx, by, k - 1);
        block_count(gray, w, bx, by, k - 1) + (if idx < gray.len() { 1int } else { 0 })
    }
}

/// Average (rounded down) of the pixels of 4x4 block (bx, by) that lie inside
/// `gray`, or 0 when none does.
pub open spec fn block_average(gray: Seq<u8>, w: int, bx: int, by: int) -> int {
    let c = block_count(gray, w, bx, by, 16);
    if c > 0 {
        block_sum(gray, w, bx, by, 16) / c
    } else {
        0
    }
}

proof fn lemma_block_bounds(gray: Seq<u8>, w: int, bx: int, by: int, k: int)
    requires
        0 <= k <= 16,
    ensures
        0 <= block_count(gray, w, bx, by, k) <= k,
        0 <= block_sum(gray, w, bx, by, k) <= 255 * block_count(gray, w, bx, by, k),
    decreases k,
{
    if k > 0 {
        lemma_block_bounds(gray, w, bx, by, k - 1);
    }
}

/// Downsample a grayscale image by averaging 4x4 blocks.
///
/// Returns the downsampled pixels (row-major) with the new width and height
/// (`width / 4` and `height / 4`), or an empty image of size 0 x 0 when either
/// would be 0.
pub fn downsample_4x(gray: &[u8], width: u32, height: u32) -> (r: (Vec<u8>, u32, u32))
    requires
        width / 4 > 0 && height / 4 > 0 ==> ((height / 4) * 4 - 1) * width + (width / 4) * 4 - 1
            <= u32::MAX,
    ensures
        width / 4 == 0 || height / 4 == 0 ==> r.0@.len() == 0 && r.1 == 0 && r.2 == 0,
        width / 4 > 0 && height / 4 > 0 ==> {
            &&& r.1 == width / 4
            &&& r.2 == height / 4
            &&& r.0@.len() == r.1 * r.2
            &&& forall|by: int, bx: int|
                0 <= by < r.2 && 0 <= bx < r.1 ==> #[trigger] r.0@[by * r.1 + bx] == block_average(
                    gray@,
                    width as int,
                    bx,
                    by,
                )
        },
{
    let new_width = width / 4;
    let new_height = height / 4;
    if new_width == 0 || new_height == 0 {
        return (Vec::new(), 0, 0);
    }
    let mut result: Vec<u8> = Vec::new();
    let ghost w = width as int;
    let mut ny: u32 = 0;
    while ny < new_height
        invariant
            0 <= ny <= new_height,
            new_width == width / 4,
            new_height == height / 4,
            new_width > 0,
            w == width,
            ((height / 4) * 4 - 1) * width + (width / 4) * 4 - 1 <= u32::MAX,
            result@.len() == ny * new_width,
            forall|by: int, bx: int|
                0 <= by < ny && 0 <= bx < new_width ==> #[trigger] result@[by * new_width + bx]
                    == block_average(gray@, w, bx, by),
        decreases new_height - ny,
    {
        let mut nx: u32 = 0;
        while nx < new_width
            invariant
                0 <= nx <= new_width,
                0 <= ny < new_height,
                new_width == width / 4,
                new_height == height / 4,
                w == width,
                ((height / 4) * 4 - 1) * width + (width / 4) * 4 - 1 <= u32::MAX,
                result@.len() == ny * new_width + nx,
                forall|by: int, bx: int|
                    0 <= by < ny && 0 <= bx < new_width ==> #[trigger] result@[by * new_width + bx]
                        == block_average(gray@, w, bx, by),
                forall|bx: int|
                    0 <= bx < nx ==> #[trigger] result@[ny * new_width + bx] == block_average(
                        gray@,
                        w,
                        bx,
                        ny as int,
                    ),
            decreases new_width - nx,
        {
            let mut sum: u32 = 0;
            let mut count: u32 = 0;
            let mut k: u32 = 0;
            while k < 16
                invariant
                    0 <= k <= 16,
                    0 <= nx < new_width,
                    0 <= ny < new_height,
                    new_width == width / 4,
                    new_height == height / 4,
                    w == width,
                    ((height / 4) * 4 - 1) * width + (width / 4) * 4 - 1 <= u32::MAX,
                    sum == block_sum(gray@, w, nx as int, ny as int, k as int),
                    count == block_count(gray@, w, nx as int, ny as int, k as int),
                decreases 16 - k,
            {
                proof {
                    lemma_block_bounds(gray@, w, nx as int, ny as int, k as int);
                }
                let dy = k / 4;
                let dx = k % 4;
                let x = nx * 4 + dx;
                let y = ny * 4 + dy;
                proof {
                    let yy = y as int;
                    assert(yy <= (height / 4) * 4 - 1);
                    assert(yy * w <= ((height / 4) * 4 - 1) * w) by (nonlinear_arith)
                        requires
                            yy <= (height / 4) * 4 - 1,
                            w >= 0,
                    ;
                    assert(0 <= yy * w) by (nonlinear_arith)
                        requires
                            yy >= 0,
                            w >= 0,
                    ;
                    assert(y * width == yy * w);
                    assert(x <= (width / 4) * 4 - 1);
                }
                if x < width && y < height {
                    let idx = (y * width + x) as usize;
                    if idx < gray.len() {
                        sum = sum + gray[idx] as u32;
                        count = count + 1;
                    }
                }
                k = k + 1;
            }
            proof {
                lemma_block_bounds(gray@, w, nx as int, ny as int, 16);
            }
            let avg = if count > 0 { sum / count } else { 0 };
            proof {
                if count > 0 {
                    assert(sum / count <= 255) by (nonlinear_arith)
                        requires
                            sum <= 255 * count,
                            count > 0,
                    ;
                }
            }
            let ghost before = result@;
            result.push(avg as u8);
            proof {
                assert(result@[ny * new_width + nx] == block_average(gray@, w, nx as int, ny as int));
                assert forall|by: int, bx: int|
                    0 <= by < ny && 0 <= bx < new_width implies #[trigger] result@[by * new_width
                        + bx] == block_average(gray@, w, bx, by) by {
                    assert(by * new_width + bx < (by + 1) * new_width) by (nonlinear_arith)
                        requires
                            bx < new_width,
                    ;
                    assert((by + 1) * new_width <= ny * new_width) by (nonlinear_arith)
                        requires
                            by + 1 <= ny,
                            new_width >= 0,
                    ;
                    assert(result@[by * new_width + bx] == before[by * new_width + bx]);
                }
            }
            nx = nx + 1;
        }
        proof {
            assert((ny + 1) * new_width == ny * new_width + new_width) by (nonlinear_arith);
            assert forall|by: int, bx: int|
                0 <= by < ny + 1 && 0 <= bx < new_width implies #[trigger] result@[by * new_width + bx]
                == block_average(gray@, w, bx, by) by {
                if by == ny {
                    assert(result@[ny * new_width + bx] == block_average(gray@, w, bx, ny as int));
                }
            }
        }
        ny = ny + 1;
    }
    proof {
        assert(result@.len() == new_height * new_width);
    }
    (result, new_width, new_height)
}

} // verus!
