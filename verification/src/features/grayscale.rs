//! Grayscale conversion with integer luminance weights:
//! Y = (77*R + 150*G + 29*B) >> 8.

use vstd::prelude::*;

verus! {

/// Integer luminance of an RGB triple.
pub open spec fn luma(r: int, g: int, b: int) -> int {
    (77 * r + 150 * g + 29 * b) / 256
}

/// Number of grayscale pixels produced from `n` RGBA bytes: one per full
/// 4-byte pixel, plus one for a trailing group of 3 bytes.
pub open spec fn gray_len(n: int) -> int {
    n / 4 + (if n % 4 == 3 { 1int } else { 0 })
}

/// Convert a single RGB pixel to grayscale.
pub fn pixel_to_grayscale(r: u8, g: u8, b: u8) -> (y: u8)
    ensures
        y == luma(r as int, g as int, b as int),
{
    let sum: u32 = 77 * r as u32 + 150 * g as u32 + 29 * b as u32;
    assert(sum >> 8 == sum / 256) by (bit_vector);
    assert(sum <= 65280);
    (sum >> 8) as u8
}

/// Convert RGBA pixel data (4 bytes per pixel) to grayscale (1 byte per pixel).
///
/// A trailing group of 3 bytes is converted as one more pixel; a trailing
/// group of 1 or 2 bytes is ignored.
pub fn rgba_to_grayscale(rgba: &[u8]) -> (gray: Vec<u8>)
    ensures
        gray@.len() == gray_len(rgba@.len() as int),
        forall|i: int|
            0 <= i < gray@.len() ==> #[trigger] gray@[i] == luma(
                rgba@[4 * i] as int,
                rgba@[4 * i + 1] as int,
                rgba@[4 * i + 2] as int,
            ),
{
    let n = rgba.len();
    let count = n / 4 + if n % 4 == 3 { 1 } else { 0 };
    let mut gray: Vec<u8> = Vec::with_capacity(count);
    let mut i: usize = 0;
    while i < count
        invariant
            n == rgba@.len(),
            count == gray_len(n as int),
            0 <= i <= count,
            gray@.len() == i,
            forall|k: int|
                0 <= k < i ==> #[trigger] gray@[k] == luma(
                    rgba@[4 * k] as int,
                    rgba@[4 * k + 1] as int,
                    rgba@[4 * k + 2] as int,
                ),
        decreases count - i,
    {
        let y = pixel_to_grayscale(rgba[4 * i], rgba[4 * i + 1], rgba[4 * i + 2]);
        gray.push(y);
        i = i + 1;
    }
    gray
}

} // verus!
