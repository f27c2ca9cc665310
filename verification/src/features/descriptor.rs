//! Binary ORB descriptors and their Hamming distance.
//!
//! A descriptor is 256 bits (32 bytes); the distance between two
//! descriptors is the number of bits in which they differ.

use vstd::prelude::*;

verus! {

/// Number of bytes in a descriptor.
pub const DESCRIPTOR_BYTES: usize = 32;

/// Margin a keypoint needs from the image border for a descriptor.
pub const DESCRIPTOR_BORDER: usize = 19;

/// Whether `(x, y)` lies at least `DESCRIPTOR_BORDER` pixels inside an image
/// of `width` by `height`, so that a descriptor can be computed there.
pub open spec fn descriptor_patch_fits(width: int, height: int, x: int, y: int) -> bool {
    &&& x >= DESCRIPTOR_BORDER
    &&& y >= DESCRIPTOR_BORDER
    &&& x + DESCRIPTOR_BORDER < width
    &&& y + DESCRIPTOR_BORDER < height
}

/// Test whether a descriptor can be computed at `(x, y)`: the point must be
/// `DESCRIPTOR_BORDER` pixels clear of every edge of the image.
pub fn fits_descriptor_patch(width: usize, height: usize, x: usize, y: usize) -> (b: bool)
    ensures
        b == descriptor_patch_fits(width as int, height as int, x as int, y as int),
{
    x >= DESCRIPTOR_BORDER && y >= DESCRIPTOR_BORDER && width > DESCRIPTOR_BORDER && x
        < width - DESCRIPTOR_BORDER && height > DESCRIPTOR_BORDER && y < height - DESCRIPTOR_BORDER
}

/// Number of set bits of a byte.
pub open spec fn popcount(x: u8) -> nat
    decreases x,
{
    if x == 0 {
        0
    } else {
        (x % 2) as nat + popcount(x / 2)
    }
}

/// Sum of the bitwise differences of the first `n` bytes of two byte strings.
pub open spec fn hamming_prefix(a: Seq<u8>, b: Seq<u8>, n: int) -> nat
    decreases n,
{
    if n <= 0 {
        0
    } else {
        hamming_prefix(a, b, n - 1) + popcount(a[n - 1] ^ b[n - 1])
    }
}

/// 256-bit ORB descriptor (32 bytes).
#[derive(Debug, Clone, Copy, PartialEq, Eq)]
pub struct OrbDescriptor {
    /// Binary descriptor data
    pub data: [u8; 32],
}

/// Hamming distance between two descriptors: the number of differing bits.
pub open spec fn descriptor_distance(a: OrbDescriptor, b: OrbDescriptor) -> nat {
    hamming_prefix(a.data@, b.data@, 32)
}

/// Bit `pos` (0-255) of a descriptor is set: bit `pos % 8` of byte `pos / 8`.
pub open spec fn descriptor_bit(d: OrbDescriptor, pos: int) -> bool {
    d.data@[pos / 8] & (1u8 << ((pos % 8) as u8)) != 0u8
}

/// The binary test of a sample pair (x1, y1, x2, y2): the intensity at the
/// first point is below the intensity at the second.
pub open spec fn pair_test(img: Seq<u8>, w: int, p: (usize, usize, usize, usize)) -> bool {
    img[p.1 * w + p.0] < img[p.3 * w + p.2]
}

/// Count the set bits of a byte.
pub fn popcount_u8(x: u8) -> (r: u32)
    ensures
        r == popcount(x),
        r <= 8,
{
    let mut v: u8 = x;
    let mut count: u32 = 0;
    proof { lemma_popcount_bound(x); }
    while v != 0
        invariant
            count + popcount(v) == popcount(x),
            popcount(x) <= 8,
        decreases v,
    {
        count = count + (v % 2) as u32;
        v = v / 2;
    }
    count
}

/// A byte has at most eight set bits.
pub proof fn lemma_popcount_bound(x: u8)
    ensures
        popcount(x) <= 8,
        x < 128 ==> popcount(x) <= 7,
        x < 64 ==> popcount(x) <= 6,
        x < 32 ==> popcount(x) <= 5,
        x < 16 ==> popcount(x) <= 4,
        x < 8 ==> popcount(x) <= 3,
        x < 4 ==> popcount(x) <= 2,
        x < 2 ==> popcount(x) <= 1,
    decreases x,
{
    if x != 0 {
        lemma_popcount_bound(x / 2);
    }
}

/// The standard ORB sampling pattern: 256 point pairs (x1, y1, x2, y2),
/// offsets from the keypoint, each coordinate within 13 pixels.
pub fn orb_pattern() -> (p: [(i8, i8, i8, i8); 256])
    ensures
        forall|i: int|
            0 <= i < 256 ==> {
                &&& -13 <= (#[trigger] p@[i]).0 <= 13
                &&& -13 <= p@[i].1 <= 13
                &&& -13 <= p@[i].2 <= 13
                &&& -13 <= p@[i].3 <= 13
            },
{
    [
    (8, -3, 9, 5), (4, 2, 7, -12), (-11, 9, -8, 2), (7, -12, 12, -13),
    (2, -13, 2, 12), (1, -7, 1, 6), (-2, -10, -2, -4), (-13, -13, -11, -8),
    (-13, -3, -12, -9), (10, 4, 11, 9), (-13, -8, -8, -9), (-11, 7, -9, 12),
    (7, 7, 12, 6), (-4, -5, -3, 0), (-13, 2, -12, -3), (-9, 0, -7, 5),
    (12, -6, 12, -1), (-3, 6, -2, 12), (-6, -13, -4, -8), (11, -13, 12, -8),
    (4, 7, 5, 1), (5, -3, 10, -3), (3, -7, 6, 12), (-8, -7, -6, -2),
    (-2, 11, -1, -10), (-13, 12, -8, 10), (-7, 3, -5, -3), (-4, 2, -3, 7),
    (-10, -12, -6, 11), (5, -12, 6, -7), (5, -6, 7, -1), (1, 0, 4, -5),
    (9, 11, 11, -13), (4, 7, 4, 12), (2, -1, 4, 4), (-4, -12, -2, 7),
    (-8, -5, -7, -10), (4, 11, 9, 12), (0, -8, 1, -13), (-13, -2, -8, 2),
    (-3, -2, -2, 3), (-6, 9, -4, -9), (8, 12, 10, 7), (0, 9, 1, 3),
    (7, -5, 11, -10), (-13, -6, -11, 0), (10, 7, 12, 1), (-6, -3, -6, 12),
    (10, -9, 12, -4), (-13, 8, -8, -12), (-13, 0, -8, -4), (3, 3, 7, 8),
    (5, 7, 10, -7), (-1, 7, 1, -12), (3, -10, 5, 6), (2, -4, 3, -10),
    (-13, 0, -13, 5), (-13, -7, -12, 12), (-13, 3, -11, 8), (-7, 12, -4, 7),
    (6, -10, 12, 8), (-9, -1, -7, -6), (-2, -5, 0, 12), (-12, 5, -7, 5),
    (3, -10, 8, -13), (-7, -7, -4, 5), (-3, -2, -1, -7), (2, 9, 5, -11),
    (-11, -13, -5, -13), (-1, 6, 0, -1), (5, -3, 5, 2), (-4, -13, -4, 12),
    (-9, -6, -9, 6), (-12, -10, -8, -4), (10, 2, 12, -3), (7, 12, 12, 12),
    (-7, -13, -6, 5), (-4, 9, -3, 4), (7, -1, 12, 2), (-7, 6, -5, 1),
    (-13, 11, -12, 5), (-3, 7, -2, -6), (7, -8, 12, -7), (-13, -7, -11, -12),
    (1, -3, 12, 12), (2, -6, 3, 0), (-4, 3, -2, -13), (-1, -13, 1, 9),
    (7, 1, 8, -6), (1, -1, 3, 12), (9, 1, 12, 6), (-1, -9, -1, 3),
    (-13, -13, -10, 5), (7, 7, 10, 12), (12, -5, 12, 9), (6, 3, 7, 11),
    (5, -13, 6, 10), (2, -12, 2, 3), (3, 8, 4, -6), (2, 6, 12, -13),
    (9, -12, 10, 3), (-8, 4, -7, 9), (-11, 12, -4, -6), (1, 12, 2, -8),
    (6, -9, 7, -4), (2, 3, 3, -2), (6, 3, 11, 0), (3, -3, 8, -8),
    (7, 8, 9, 3), (-11, -5, -6, -4), (-10, 11, -5, 10), (-5, -8, -3, 12),
    (-10, 5, -9, 0), (8, -1, 12, -6), (4, -6, 6, -11), (-10, 12, -8, 7),
    (4, -2, 6, 7), (-2, 0, -2, 12), (-5, -8, -5, 2), (7, -6, 10, 12),
    (-9, -13, -8, -8), (-5, -13, -5, -2), (8, -8, 9, -13), (-9, -11, -9, 0),
    (1, -8, 1, -2), (7, -4, 9, 1), (-2, 1, -1, -4), (11, -6, 12, -11),
    (-12, -9, -6, 4), (3, 7, 7, 12), (5, 5, 10, 8), (0, -4, 2, 8),
    (-9, 12, -5, -13), (0, 7, 2, 12), (-1, 2, 1, 7), (5, 11, 7, -9),
    (3, 5, 6, -8), (-13, -4, -8, 9), (-5, 9, -3, -3), (-4, -7, -3, -12),
    (6, 5, 8, 0), (-7, 6, -6, 12), (-13, 6, -5, -2), (1, -10, 3, 10),
    (4, 1, 8, -4), (-2, -2, 2, -13), (2, -12, 12, 12), (-2, -13, 0, -6),
    (4, 1, 9, 3), (-6, -10, -3, -5), (-3, -13, -1, 1), (7, 5, 12, -11),
    (4, -2, 5, -7), (-13, 9, -9, -5), (7, 1, 8, 6), (7, -8, 7, 6),
    (-7, -4, -7, 1), (-8, 11, -7, -8), (-13, 6, -12, -8), (2, 4, 3, 9),
    (10, -5, 12, 3), (-6, -5, -6, 7), (8, -3, 9, -8), (2, -12, 2, 8),
    (-11, -2, -10, 3), (-12, -13, -7, -9), (-11, 0, -10, -5), (5, -3, 11, 8),
    (-2, -13, -1, 12), (-1, -8, 0, 9), (-13, -11, -12, -5), (-10, -2, -10, 11),
    (-3, 9, -2, -13), (2, -3, 3, 2), (-9, -13, -4, 0), (-4, 6, -3, -10),
    (-4, 12, -2, -7), (-6, -11, -4, 9), (6, -3, 6, 11), (-13, 11, -5, 5),
    (11, 11, 12, 6), (7, -5, 12, -2), (-1, 12, 0, 7), (-4, -8, -3, -2),
    (-7, 1, -6, 7), (-13, -12, -8, -13), (-7, -2, -6, -8), (-8, 5, -6, -9),
    (-5, -1, -4, 5), (-13, 7, -8, 10), (1, 5, 5, -13), (1, 0, 10, -13),
    (9, 12, 10, -1), (5, -8, 10, -9), (-1, 11, 1, -13), (-9, -3, -6, 2),
    (-1, -10, 1, 12), (-13, 1, -8, -10), (8, -11, 10, -6), (2, -13, 3, -6),
    (7, -13, 12, -9), (-10, -10, -5, -7), (-10, -8, -8, -13), (4, -6, 8, 5),
    (3, 12, 8, -13), (-4, 2, -3, -3), (5, -13, 10, -12), (4, -13, 5, -1),
    (-9, 9, -4, 3), (0, 3, 3, -9), (-12, 1, -6, 1), (3, 2, 4, -8),
    (-10, -10, -10, 9), (8, -13, 12, 12), (-8, -12, -6, -5), (2, 2, 3, 7),
    (10, 6, 11, -8), (6, 8, 8, -12), (-7, 10, -6, 5), (-3, -9, -3, 9),
    (-1, -13, -1, 5), (-3, -7, -3, 4), (-8, -2, -8, 3), (4, 2, 12, 12),
    (2, -5, 3, 11), (6, -9, 11, -13), (3, -1, 7, 12), (11, -1, 12, 4),
    (-6, -11, -4, -7), (3, -2, 4, -8), (-2, -2, -1, 8), (1, 8, 5, 1),
    (5, -2, 6, 1), (6, 3, 9, -7), (-6, -1, -1, -4), (-8, 0, -5, -9),
    (0, 12, 3, -3), (4, -12, 5, -11), (-12, 12, -9, 3), (-2, -2, 0, -7),
    (-3, 7, -1, -12), (6, 4, 9, 6), (-10, -9, -6, -9), (-2, 12, -1, -7),
    (-4, -8, -3, -4), (-7, 5, -6, -11), (-11, -3, -9, 4), (-1, 11, -1, -5),
    (-6, 12, -5, 0), (-5, 6, -3, -8), (0, -13, 0, -5), (-1, 2, 4, -11),
    // Additional patterns to reach 256
    (5, 3, 8, -7), (-8, 4, -5, -3), (3, 7, 6, -12), (-11, 4, -7, 8),
    ]
}

impl OrbDescriptor {
    /// Create a new empty descriptor (all zeros).
    pub fn new() -> (d: Self)
        ensures
            forall|i: int| 0 <= i < 32 ==> d.data@[i] == 0u8,
    {
        OrbDescriptor { data: [0u8; 32] }
    }

    /// Hamming distance to another descriptor: the number of bits that differ (0-256).
    pub fn distance(&self, other: &Self) -> (d: u32)
        ensures
            d == descriptor_distance(*self, *other),
            d <= 256,
    {
        let mut sum: u32 = 0;
        let mut i: usize = 0;
        while i < 32
            invariant
                0 <= i <= 32,
                sum == hamming_prefix(self.data@, other.data@, i as int),
                sum <= 8 * i,
            decreases 32 - i,
        {
            let c = popcount_u8(self.data[i] ^ other.data[i]);
            sum = sum + c;
            i = i + 1;
        }
        sum
    }

    /// Check if two descriptors are similar: their distance is at most `max_distance`.
    pub fn is_similar(&self, other: &Self, max_distance: u32) -> (b: bool)
        ensures
            b == (descriptor_distance(*self, *other) <= max_distance),
    {
        self.distance(other) <= max_distance
    }
}

proof fn lemma_xor_split(a: u8, b: u8)
    ensures
        (a ^ b) % 2 == (if a % 2 == b % 2 { 0u8 } else { 1u8 }),
        (a ^ b) / 2 == (a / 2) ^ (b / 2),
        a ^ b == b ^ a,
        a ^ a == 0u8,
        (a ^ b == 0u8) ==> a == b,
{
    assert((a ^ b) % 2 == (if a % 2 == b % 2 { 0u8 } else { 1u8 })) by (bit_vector);
    assert((a ^ b) / 2 == (a / 2) ^ (b / 2)) by (bit_vector);
    assert(a ^ b == b ^ a) by (bit_vector);
    assert(a ^ a == 0u8) by (bit_vector);
    assert((a ^ b == 0u8) ==> a == b) by (bit_vector);
}

proof fn lemma_popcount_zero(x: u8)
    ensures
        popcount(x) == 0 <==> x == 0,
    decreases x,
{
    if x != 0 {
        lemma_popcount_zero(x / 2);
    }
}

proof fn lemma_popcount_triangle(a: u8, b: u8, c: u8)
    ensures
        popcount(a ^ c) <= popcount(a ^ b) + popcount(b ^ c),
    decreases a as int + b as int + c as int,
{
    lemma_xor_split(a, c);
    lemma_xor_split(a, b);
    lemma_xor_split(b, c);
    if a == 0 && b == 0 && c == 0 {
    } else {
        lemma_popcount_triangle(a / 2, b / 2, c / 2);
    }
}

proof fn lemma_hamming_prefix_laws(a: Seq<u8>, b: Seq<u8>, c: Seq<u8>, n: int)
    requires
        0 <= n <= a.len(),
        n <= b.len(),
        n <= c.len(),
    ensures
        hamming_prefix(a, b, n) == hamming_prefix(b, a, n),
        hamming_prefix(a, c, n) <= hamming_prefix(a, b, n) + hamming_prefix(b, c, n),
        hamming_prefix(a, b, n) <= 8 * n,
        hamming_prefix(a, b, n) == 0 <==> a.subrange(0, n) == b.subrange(0, n),
    decreases n,
{
    if n > 0 {
        lemma_hamming_prefix_laws(a, b, c, n - 1);
        lemma_xor_split(a[n - 1], b[n - 1]);
        lemma_popcount_triangle(a[n - 1], b[n - 1], c[n - 1]);
        lemma_popcount_bound(a[n - 1] ^ b[n - 1]);
        lemma_popcount_zero(a[n - 1] ^ b[n - 1]);
        if a.subrange(0, n) == b.subrange(0, n) {
            assert(a.subrange(0, n - 1) == a.subrange(0, n).subrange(0, n - 1));
            assert(b.subrange(0, n - 1) == b.subrange(0, n).subrange(0, n - 1));
            assert(a[n - 1] == a.subrange(0, n)[n - 1]);
            assert(b[n - 1] == b.subrange(0, n)[n - 1]);
        }
        if hamming_prefix(a, b, n) == 0 {
            assert(a.subrange(0, n) =~= a.subrange(0, n - 1).push(a[n - 1]));
            assert(b.subrange(0, n) =~= b.subrange(0, n - 1).push(b[n - 1]));
        }
    } else {
        assert(a.subrange(0, n) =~= b.subrange(0, n));
    }
}

/// The Hamming distance is symmetric.
pub proof fn lemma_distance_symmetric(a: OrbDescriptor, b: OrbDescriptor)
    ensures
        descriptor_distance(a, b) == descriptor_distance(b, a),
{
    lemma_hamming_prefix_laws(a.data@, b.data@, b.data@, 32);
}

/// The distance between two descriptors is zero exactly when their bits agree.
pub proof fn lemma_distance_zero_iff_equal(a: OrbDescriptor, b: OrbDescriptor)
    ensures
        descriptor_distance(a, b) == 0 <==> a.data@ == b.data@,
{
    lemma_hamming_prefix_laws(a.data@, b.data@, b.data@, 32);
    assert(a.data@.subrange(0, 32) == a.data@);
    assert(b.data@.subrange(0, 32) == b.data@);
}

/// The distance never exceeds the 256 bits of a descriptor.
pub proof fn lemma_distance_bounded(a: OrbDescriptor, b: OrbDescriptor)
    ensures
        descriptor_distance(a, b) <= 256,
{
    lemma_hamming_prefix_laws(a.data@, b.data@, b.data@, 32);
}

/// The Hamming distance satisfies the triangle inequality.
pub proof fn lemma_distance_triangle(a: OrbDescriptor, b: OrbDescriptor, c: OrbDescriptor)
    ensures
        descriptor_distance(a, c) <= descriptor_distance(a, b) + descriptor_distance(b, c),
{
    lemma_hamming_prefix_laws(a.data@, b.data@, c.data@, 32);
}

proof fn lemma_set_bit(v: u8, p: u8, q: u8)
    requires
        p < 8,
        q < 8,
    ensures
        ((v | (1u8 << p)) & (1u8 << q) != 0u8) == (p == q || v & (1u8 << q) != 0u8),
{
    assert(((v | (1u8 << p)) & (1u8 << q) != 0u8) == (p == q || v & (1u8 << q) != 0u8))
        by (bit_vector)
        requires
            p < 8,
            q < 8,
    ;
}

proof fn lemma_zero_bits(q: u8)
    requires
        q < 8,
    ensures
        0u8 & (1u8 << q) == 0u8,
{
    assert(0u8 & (1u8 << q) == 0u8) by (bit_vector);
}

impl OrbDescriptor {
    /// The descriptor of 256 binary tests: bit `i` is set exactly when the
    /// intensity at the first point of sample pair `i` is below the intensity
    /// at its second point. Points are given as (x1, y1, x2, y2) pixel
    /// coordinates in an image of width `width`.
    pub fn from_point_pairs(image: &[u8], width: usize, pairs: &[(usize, usize, usize, usize)]) -> (d:
        Self)
        requires
            pairs@.len() == 256,
            forall|k: int|
                0 <= k < 256 ==> (#[trigger] pairs@[k]).1 * width + pairs@[k].0 < image@.len()
                    && pairs@[k].3 * width + pairs@[k].2 < image@.len(),
        ensures
            forall|i: int|
                0 <= i < 256 ==> descriptor_bit(d, i) == pair_test(image@, width as int, #[trigger] pairs@[i]),
    {
        let mut d = OrbDescriptor::new();
        proof {
            assert forall|j: int| 0 <= j < 256 implies !#[trigger] descriptor_bit(d, j) by {
                assert(d.data@[j / 8] == 0u8);
                lemma_zero_bits((j % 8) as u8);
            }
        }
        let mut i: usize = 0;
        while i < 256
            invariant
                0 <= i <= 256,
                pairs@.len() == 256,
                forall|k: int|
                    0 <= k < 256 ==> (#[trigger] pairs@[k]).1 * width + pairs@[k].0 < image@.len()
                        && pairs@[k].3 * width + pairs@[k].2 < image@.len(),
                forall|j: int|
                    0 <= j < i ==> descriptor_bit(d, j) == pair_test(image@, width as int, #[trigger] pairs@[j]),
                forall|j: int| i <= j < 256 ==> !#[trigger] descriptor_bit(d, j),
            decreases 256 - i,
        {
            let (x1, y1, x2, y2) = pairs[i];
            proof {
                assert(pairs@[i as int] == (x1, y1, x2, y2));
                assert(image@.len() == image.len());
            }
            let i1 = image[y1 * width + x1];
            let i2 = image[y2 * width + x2];
            if i1 < i2 {
                let byte_idx = i / 8;
                let bit_pos = (i % 8) as u8;
                let ghost old_d = d;
                d.data[byte_idx] = d.data[byte_idx] | (1u8 << bit_pos);
                proof {
                    assert forall|j: int| 0 <= j < 256 && j != i implies #[trigger] descriptor_bit(d, j)
                        == descriptor_bit(old_d, j) by {
                        if j / 8 == byte_idx {
                            lemma_set_bit(old_d.data@[j / 8], bit_pos, (j % 8) as u8);
                        } else {
                            assert(d.data@[j / 8] == old_d.data@[j / 8]);
                        }
                    }
                    lemma_set_bit(old_d.data@[byte_idx as int], bit_pos, bit_pos);
                    assert(descriptor_bit(d, i as int));
                }
            } else {
                proof {
                    assert(!descriptor_bit(d, i as int));
                }
            }
            i = i + 1;
        }
        d
    }
}

} // verus!
