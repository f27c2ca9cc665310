//! White-pixel detection, the integer part of color-temperature estimation.

use vstd::prelude::*;

verus! {

/// Minimum brightness for white pixel detection (0-255).
pub const WHITE_BRIGHTNESS_THRESHOLD: u8 = 200;

/// A pixel is white when its average brightness is at least 200 and its
/// saturation `(max - min) / max` is below 0.15, that is
/// `20 * (max - min) < 3 * max`.
pub open spec fn is_white(r: u8, g: u8, b: u8) -> bool {
    let mx = if r >= g && r >= b { r } else if g >= b { g } else { b };
    let mn = if r <= g && r <= b { r } else if g <= b { g } else { b };
    (r as int + g as int + b as int) / 3 >= WHITE_BRIGHTNESS_THRESHOLD && 20 * (mx - mn) < 3
        * mx
}

/// No channel is far below another: for every ordered pair of channels
/// `(p, q)`, `20 * (p - q) < 3 * p`, which for the largest and smallest
/// channel is a saturation `(max - min) / max` below 0.15.
pub open spec fn channels_close(r: u8, g: u8, b: u8) -> bool {
    &&& 20 * (r - g) < 3 * r
    &&& 20 * (r - b) < 3 * r
    &&& 20 * (g - r) < 3 * g
    &&& 20 * (g - b) < 3 * g
    &&& 20 * (b - r) < 3 * b
    &&& 20 * (b - g) < 3 * b
}

/// A pixel is white exactly when its average brightness is at least 200
/// and no channel is far below another; so whiteness does not depend on
/// which channel is which.
pub proof fn lemma_white_is_bright_and_unsaturated(r: u8, g: u8, b: u8)
    ensures
        is_white(r, g, b) <==> ((r + g + b) / 3 >= 200 && channels_close(r, g, b)),
        is_white(r, g, b) == is_white(g, b, r),
        is_white(r, g, b) == is_white(g, r, b),
{
}

/// Every pixel reported white is bright and unsaturated.
pub proof fn lemma_white_prefix_pixels(rgba: Seq<u8>, n: int)
    requires
        0 <= n,
        4 * n <= rgba.len() + 1,
    ensures
        forall|k: int|
            0 <= k < white_prefix(rgba, n).len() ==> {
                let p = #[trigger] white_prefix(rgba, n)[k];
                &&& (p.0 + p.1 + p.2) / 3 >= 200
                &&& channels_close(p.0, p.1, p.2)
            },
    decreases n,
{
    if n > 0 {
        lemma_white_prefix_pixels(rgba, n - 1);
        let o = 4 * (n - 1);
        lemma_white_is_bright_and_unsaturated(rgba[o], rgba[o + 1], rgba[o + 2]);
        let prev = white_prefix(rgba, n - 1);
        assert forall|k: int| 0 <= k < prev.len() implies white_prefix(rgba, n)[k] == prev[k] by {}
    }
}

/// Number of pixels examined: at most `pixel_count`, and only those whose
/// R, G and B bytes lie inside the buffer.
pub open spec fn examined_pixels(len: int, pixel_count: int) -> int {
    let avail = (len + 1) / 4;
    if pixel_count < avail {
        pixel_count
    } else {
        avail
    }
}

/// The white pixels among the first `n` pixels, in order.
pub open spec fn white_prefix(rgba: Seq<u8>, n: int) -> Seq<(u8, u8, u8)>
    decreases n,
{
    if n <= 0 {
        seq![]
    } else {
        let prev = white_prefix(rgba, n - 1);
        let o = 4 * (n - 1);
        if is_white(rgba[o], rgba[o + 1], rgba[o + 2]) {
            prev.push((rgba[o], rgba[o + 1], rgba[o + 2]))
        } else {
            prev
        }
    }
}

/// Detect pixels that are likely white/neutral in an RGBA image: bright
/// (average at least 200) and unsaturated (saturation below 0.15).
/// Returns the RGB triples of the white pixels in image order.
pub fn detect_white_pixels(rgba: &[u8], width: u32, height: u32) -> (r: Vec<(u8, u8, u8)>)
    requires
        width * height <= u32::MAX,
        rgba@.len() < usize::MAX,
    ensures
        r@ == white_prefix(rgba@, examined_pixels(rgba@.len() as int, width * height)),
        forall|k: int|
            0 <= k < r@.len() ==> {
                let p = #[trigger] r@[k];
                &&& (p.0 + p.1 + p.2) / 3 >= 200
                &&& channels_close(p.0, p.1, p.2)
            },
{
    let pixel_count = (width * height) as usize;
    let mut white_pixels: Vec<(u8, u8, u8)> = Vec::new();
    let mut i: usize = 0;
    while i < pixel_count
        invariant_except_break
            0 <= i <= pixel_count,
            pixel_count == width * height,
            i <= examined_pixels(rgba@.len() as int, pixel_count as int),
            rgba@.len() < usize::MAX,
            white_pixels@ == white_prefix(rgba@, i as int),
        ensures
            i == examined_pixels(rgba@.len() as int, pixel_count as int),
            white_pixels@ == white_prefix(rgba@, i as int),
        decreases pixel_count - i,
    {
        proof {
            assert(4 * i <= rgba@.len() + 1);
        }
        let offset = i * 4;
        if offset + 2 >= rgba.len() {
            proof {
                assert((rgba@.len() + 1) / 4 <= i);
            }
            break;
        }
        proof {
            assert(i < (rgba@.len() + 1) / 4);
        }
        let r = rgba[offset];
        let g = rgba[offset + 1];
        let b = rgba[offset + 2];
        let brightness = ((r as u16 + g as u16 + b as u16) / 3) as u8;
        if brightness >= WHITE_BRIGHTNESS_THRESHOLD {
            let max_val = if r >= g && r >= b { r } else if g >= b { g } else { b };
            let min_val = if r <= g && r <= b { r } else if g <= b { g } else { b };
            let spread: u32 = (max_val - min_val) as u32;
            let top: u32 = max_val as u32;
            if 20 * spread < 3 * top {
                white_pixels.push((r, g, b));
            }
        }
        i = i + 1;
    }
    proof {
        assert(i == examined_pixels(rgba@.len() as int, pixel_count as int));
        lemma_white_prefix_pixels(rgba@, i as int);
    }
    white_pixels
}

/// Sums of the red, green and blue values of the first `n` pixels.
pub open spec fn rgb_sums_spec(pixels: Seq<(u8, u8, u8)>, n: int) -> (int, int, int)
    decreases n,
{
    if n <= 0 {
        (0, 0, 0)
    } else {
        let prev = rgb_sums_spec(pixels, n - 1);
        let p = pixels[n - 1];
        (prev.0 + p.0, prev.1 + p.1, prev.2 + p.2)
    }
}

proof fn lemma_rgb_sums_bound(pixels: Seq<(u8, u8, u8)>, n: int)
    requires
        0 <= n <= pixels.len(),
    ensures
        0 <= rgb_sums_spec(pixels, n).0 <= 255 * n,
        0 <= rgb_sums_spec(pixels, n).1 <= 255 * n,
        0 <= rgb_sums_spec(pixels, n).2 <= 255 * n,
    decreases n,
{
    if n > 0 {
        lemma_rgb_sums_bound(pixels, n - 1);
    }
}

/// Sums of the red, green and blue values of a list of pixels.
pub fn rgb_sums(pixels: &[(u8, u8, u8)]) -> (s: (u64, u64, u64))
    requires
        pixels@.len() <= 0xff_ffff_ffff_ffff,
    ensures
        (s.0 as int, s.1 as int, s.2 as int) == rgb_sums_spec(pixels@, pixels@.len() as int),
{
    let mut r: u64 = 0;
    let mut g: u64 = 0;
    let mut b: u64 = 0;
    let mut i: usize = 0;
    while i < pixels.len()
        invariant
            0 <= i <= pixels@.len(),
            pixels@.len() <= 0xff_ffff_ffff_ffff,
            (r as int, g as int, b as int) == rgb_sums_spec(pixels@, i as int),
        decreases pixels@.len() - i,
    {
        proof {
            lemma_rgb_sums_bound(pixels@, i + 1);
        }
        let (pr, pg, pb) = pixels[i];
        r = r + pr as u64;
        g = g + pg as u64;
        b = b + pb as u64;
        i = i + 1;
    }
    (r, g, b)
}

/// Sums of the red, green and blue bytes of the first `n` RGBA pixels.
pub open spec fn rgba_sums_spec(rgba: Seq<u8>, n: int) -> (int, int, int)
    decreases n,
{
    if n <= 0 {
        (0, 0, 0)
    } else {
        let prev = rgba_sums_spec(rgba, n - 1);
        let o = 4 * (n - 1);
        (prev.0 + rgba[o], prev.1 + rgba[o + 1], prev.2 + rgba[o + 2])
    }
}

proof fn lemma_rgba_sums_bound(rgba: Seq<u8>, n: int)
    requires
        0 <= n,
        4 * n <= rgba.len() + 1,
    ensures
        0 <= rgba_sums_spec(rgba, n).0 <= 255 * n,
        0 <= rgba_sums_spec(rgba, n).1 <= 255 * n,
        0 <= rgba_sums_spec(rgba, n).2 <= 255 * n,
    decreases n,
{
    if n > 0 {
        lemma_rgba_sums_bound(rgba, n - 1);
    }
}

/// Channel sums of an RGBA image: the red, green and blue sums over the
/// examined pixels (at most `width * height`, and only those whose R, G and B
/// bytes lie inside the buffer), and the number of examined pixels.
pub fn channel_sums(rgba: &[u8], width: u32, height: u32) -> (s: (u64, u64, u64, u64))
    requires
        width * height <= u32::MAX,
        rgba@.len() < usize::MAX,
    ensures
        s.3 == examined_pixels(rgba@.len() as int, width * height),
        (s.0 as int, s.1 as int, s.2 as int) == rgba_sums_spec(rgba@, s.3 as int),
{
    let pixel_count = (width * height) as usize;
    let mut r: u64 = 0;
    let mut g: u64 = 0;
    let mut b: u64 = 0;
    let mut i: usize = 0;
    while i < pixel_count
        invariant_except_break
            0 <= i <= pixel_count,
            pixel_count == width * height,
            width * height <= u32::MAX,
            i <= examined_pixels(rgba@.len() as int, pixel_count as int),
            rgba@.len() < usize::MAX,
            (r as int, g as int, b as int) == rgba_sums_spec(rgba@, i as int),
        ensures
            i == examined_pixels(rgba@.len() as int, pixel_count as int),
            (r as int, g as int, b as int) == rgba_sums_spec(rgba@, i as int),
        decreases pixel_count - i,
    {
        proof {
            assert(4 * i <= rgba@.len() + 1);
        }
        let offset = i * 4;
        if offset + 2 >= rgba.len() {
            proof {
                assert((rgba@.len() + 1) / 4 <= i);
            }
            break;
        }
        proof {
            assert(i < (rgba@.len() + 1) / 4);
            lemma_rgba_sums_bound(rgba@, i + 1);
        }
        r = r + rgba[offset] as u64;
        g = g + rgba[offset + 1] as u64;
        b = b + rgba[offset + 2] as u64;
        i = i + 1;
    }
    (r, g, b, i as u64)
}

} // verus!
