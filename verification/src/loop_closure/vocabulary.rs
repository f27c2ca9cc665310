//! Visual vocabulary by random bit projections (locality-sensitive hashing).
//!
//! Each projection samples a fixed list of descriptor bit positions; the
//! sampled bits form a number, and the numbers of all projections are
//! combined into a word id.

use vstd::prelude::*;
use vstd::arithmetic::power2::pow2;
use crate::features::descriptor::{descriptor_bit, OrbDescriptor};

verus! {

/// Configuration for vocabulary building.
#[derive(Debug, Clone)]
pub struct VocabConfig {
    /// Number of words (vocabulary size)
    pub num_words: usize,
    /// Number of random projections per descriptor
    pub num_projections: usize,
}

impl Default for VocabConfig {
    /// 1024 words and 10 projections.
    fn default() -> (c: Self)
        ensures
            c.num_words == 1024,
            c.num_projections == 10,
    {
        VocabConfig { num_words: 1024, num_projections: 10 }
    }
}

/// `b` is the number of bits needed for `n` words: the smallest `b` with `2^b >= n`.
pub open spec fn is_ceil_log2(b: int, n: int) -> bool {
    &&& b >= 0
    &&& pow2(b as nat) >= n
    &&& (b == 0 || pow2((b - 1) as nat) < n)
}

/// One step of the linear congruential generator, modulo 2^64.
pub open spec fn lcg_step(s: u64) -> u64 {
    vstd::wrapping::u64_specs::wrapping_add(vstd::wrapping::u64_specs::wrapping_mul(s, 1103515245), 12345)
}

/// Generator state after `k` steps from the seed 42.
pub open spec fn lcg_state(k: nat) -> u64
    decreases k,
{
    if k == 0 {
        42
    } else {
        lcg_step(lcg_state((k - 1) as nat))
    }
}

/// The number formed by the descriptor bits sampled at the first `n`
/// positions of `bits`: bit `b` of the number is descriptor bit `bits[b]`.
pub open spec fn projection_value(d: OrbDescriptor, bits: Seq<usize>, n: int) -> int
    decreases n,
{
    if n <= 0 {
        0
    } else {
        projection_value(d, bits, n - 1) + (if descriptor_bit(d, bits[n - 1] as int) {
            pow2((n - 1) as nat) as int
        } else {
            0
        })
    }
}

/// XOR-combination of the first `np` projections, each multiplied
/// (modulo the word size) by its index plus one.
pub open spec fn combined_hash(d: OrbDescriptor, proj: Seq<Seq<usize>>, np: int) -> usize
    decreases np,
{
    if np <= 0 {
        0
    } else {
        combined_hash(d, proj, np - 1) ^ vstd::wrapping::usize_specs::wrapping_mul(
            projection_value(d, proj[np - 1], proj[np - 1].len() as int) as usize,
            np as usize,
        )
    }
}

/// Visual vocabulary using locality-sensitive hashing.
#[derive(Debug, Clone)]
pub struct Vocabulary {
    /// Number of words in vocabulary
    num_words: usize,
    /// Bit positions to sample for each projection
    projection_bits: Vec<Vec<usize>>,
    /// Total number of images recorded
    total_images: usize,
    /// Number of images containing each word
    word_image_counts: Vec<usize>,
}

impl Vocabulary {
    /// Number of words.
    pub closed spec fn spec_num_words(&self) -> nat {
        self.num_words as nat
    }

    /// The bit positions of each projection.
    pub closed spec fn projections(&self) -> Seq<Seq<usize>> {
        self.projection_bits@.map_values(|v: Vec<usize>| v@)
    }

    /// Number of images recorded.
    pub closed spec fn spec_total_images(&self) -> nat {
        self.total_images as nat
    }

    /// Number of recorded images containing each word.
    pub closed spec fn image_counts(&self) -> Seq<usize> {
        self.word_image_counts@
    }

    /// Every sampled position is a descriptor bit, projections sample at
    /// most a machine word of bits, and there is one count per word.
    pub open spec fn wf(&self) -> bool {
        &&& forall|p: int|
            0 <= p < self.projections().len() ==> (#[trigger] self.projections()[p]).len()
                <= usize::BITS
        &&& forall|p: int, b: int|
            0 <= p < self.projections().len() && 0 <= b < self.projections()[p].len() ==> (
            #[trigger] self.projections()[p][b]) < 256
        &&& self.image_counts().len() == self.spec_num_words()
        &&& self.spec_num_words() <= usize::MAX
    }

    /// The word id of a descriptor: the combined projection hash modulo the
    /// number of words.
    pub open spec fn spec_transform(&self, d: OrbDescriptor) -> int {
        combined_hash(d, self.projections(), self.projections().len() as int) as int
            % self.spec_num_words() as int
    }

    /// Create a vocabulary: `num_projections` projections, each sampling
    /// `ceil(log2(num_words))` bit positions drawn from the generator
    /// (position = state % 256, one step per position, projections in turn),
    /// and no recorded images.
    pub fn new(config: &VocabConfig) -> (v: Self)
        requires
            config.num_words <= 0x1_0000_0000_0000,
        ensures
            v.wf(),
            v.spec_num_words() == config.num_words,
            v.spec_total_images() == 0,
            forall|w: int| 0 <= w < config.num_words ==> #[trigger] v.image_counts()[w] == 0,
            v.projections().len() == config.num_projections,
            forall|p: int|
                0 <= p < config.num_projections ==> is_ceil_log2(
                    (#[trigger] v.projections()[p]).len() as int,
                    config.num_words as int,
                ),
            forall|p: int, b: int|
                0 <= p < config.num_projections && 0 <= b < v.projections()[p].len() ==> (
                #[trigger] v.projections()[p][b]) == lcg_state(
                    (p * v.projections()[p].len() + b + 1) as nat,
                ) % 256,
    {
        let n = config.num_words;
        let mut bits_per_proj: usize = 0;
        let mut p2: u64 = 1;
        let nn: u64 = n as u64;
        assert(nn == n);
        proof {
            vstd::arithmetic::power2::lemma2_to64();
        }
        while p2 < nn
            invariant
                n == config.num_words,
                nn == n,
                n <= 0x1_0000_0000_0000,
                p2 == pow2(bits_per_proj as nat),
                bits_per_proj <= 48,
                bits_per_proj == 0 || pow2((bits_per_proj - 1) as nat) < n,
            decreases 64 - bits_per_proj,
        {
            proof {
                vstd::arithmetic::power2::lemma2_to64();
                vstd::arithmetic::power2::lemma2_to64_rest();
                vstd::arithmetic::power2::lemma_pow2_unfold((bits_per_proj + 1) as nat);
                vstd::arithmetic::power2::lemma_pow2_pos(bits_per_proj as nat);
                if bits_per_proj > 48 {
                    vstd::arithmetic::power2::lemma_pow2_strictly_increases(48, bits_per_proj as nat);
                }
                assert(bits_per_proj < 48);
            }
            p2 = p2 * 2;
            bits_per_proj = bits_per_proj + 1;
        }
        proof {
            vstd::arithmetic::power2::lemma2_to64();
            if bits_per_proj > usize::BITS {
                if usize::BITS == 32 {
                    if bits_per_proj - 1 > 32 {
                        vstd::arithmetic::power2::lemma_pow2_strictly_increases(
                            32,
                            (bits_per_proj - 1) as nat,
                        );
                    }
                }
            }
            assert(bits_per_proj <= usize::BITS);
        }
        let mut projection_bits: Vec<Vec<usize>> = Vec::new();
        let mut seed: u64 = 42;
        let ghost mut steps: nat = 0;
        let mut p: usize = 0;
        while p < config.num_projections
            invariant
                0 <= p <= config.num_projections,
                projection_bits@.len() == p,
                is_ceil_log2(bits_per_proj as int, n as int),
                bits_per_proj <= usize::BITS,
                steps == p * bits_per_proj,
                seed == lcg_state(steps),
                forall|q: int|
                    0 <= q < p ==> (#[trigger] projection_bits@[q])@.len() == bits_per_proj,
                forall|q: int, b: int|
                    0 <= q < p && 0 <= b < bits_per_proj ==> (#[trigger] projection_bits@[q]@[b])
                        == lcg_state((q * bits_per_proj + b + 1) as nat) % 256,
            decreases config.num_projections - p,
        {
            let mut bits: Vec<usize> = Vec::new();
            let mut b: usize = 0;
            while b < bits_per_proj
                invariant
                    0 <= b <= bits_per_proj,
                    bits@.len() == b,
                    steps == p * bits_per_proj + b,
                    seed == lcg_state(steps),
                    forall|k: int|
                        0 <= k < b ==> #[trigger] bits@[k] == lcg_state(
                            (p * bits_per_proj + k + 1) as nat,
                        ) % 256,
                decreases bits_per_proj - b,
            {
                seed = seed.wrapping_mul(1103515245).wrapping_add(12345);
                proof {
                    steps = steps + 1;
                }
                bits.push((seed % 256) as usize);
                b = b + 1;
            }
            proof {
                assert((p + 1) * bits_per_proj == p * bits_per_proj + bits_per_proj) by (nonlinear_arith);
            }
            projection_bits.push(bits);
            p = p + 1;
        }
        let word_image_counts = vec![0usize; n];
        let v = Vocabulary { num_words: n, projection_bits, total_images: 0, word_image_counts };
        proof {
            assert forall|q: int|
                0 <= q < v.projections().len() implies (#[trigger] v.projections()[q]).len()
                <= usize::BITS by {}
        }
        v
    }

    /// Create a vocabulary with the default configuration.
    pub fn with_defaults() -> (v: Self)
        ensures
            v.wf(),
            v.spec_num_words() == 1024,
            v.spec_total_images() == 0,
            v.projections().len() == 10,
    {
        Self::new(&VocabConfig::default())
    }

    /// The word id of a descriptor.
    pub fn transform(&self, descriptor: &OrbDescriptor) -> (w: usize)
        requires
            self.wf(),
            self.spec_num_words() > 0,
        ensures
            w == self.spec_transform(*descriptor),
            w < self.spec_num_words(),
    {
        let mut word_id: usize = 0;
        let mut proj_idx: usize = 0;
        while proj_idx < self.projection_bits.len()
            invariant
                self.wf(),
                0 <= proj_idx <= self.projections().len(),
                self.projections().len() == self.projection_bits@.len(),
                word_id == combined_hash(*descriptor, self.projections(), proj_idx as int),
            decreases self.projection_bits@.len() - proj_idx,
        {
            let bits = &self.projection_bits[proj_idx];
            assert(bits@ == self.projections()[proj_idx as int]);
            let mut proj_value: usize = 0;
            let mut bit_idx: usize = 0;
            proof {
                vstd::arithmetic::power2::lemma2_to64();
            }
            while bit_idx < bits.len()
                invariant
                    0 <= bit_idx <= bits@.len(),
                    bits@.len() <= usize::BITS,
                    forall|b: int| 0 <= b < bits@.len() ==> #[trigger] bits@[b] < 256,
                    proj_value == projection_value(*descriptor, bits@, bit_idx as int),
                    proj_value < pow2(bit_idx as nat),
                decreases bits@.len() - bit_idx,
            {
                let bit_pos = bits[bit_idx];
                let byte_idx = bit_pos / 8;
                let bit_offset = (bit_pos % 8) as u8;
                proof {
                    vstd::bits::lemma_usize_pow2_no_overflow(bit_idx as nat);
                    vstd::bits::lemma_usize_shl_is_mul(1, bit_idx);
                    vstd::arithmetic::power2::lemma_pow2_unfold((bit_idx + 1) as nat);
                }
                if descriptor.data[byte_idx] & (1u8 << bit_offset) != 0 {
                    let one: usize = 1;
                    let mask: usize = one << bit_idx;
                    let v = proj_value;
                    assert(v < mask ==> v | mask == v + mask) by (bit_vector)
                        requires
                            mask == 1usize << bit_idx,
                            bit_idx < usize::BITS,
                    ;
                    proj_value = proj_value | mask;
                }
                bit_idx = bit_idx + 1;
            }
            word_id = word_id ^ proj_value.wrapping_mul(proj_idx + 1);
            proj_idx = proj_idx + 1;
        }
        word_id % self.num_words
    }

    /// Word ids of several descriptors, in order.
    pub fn transform_batch(&self, descriptors: &[OrbDescriptor]) -> (r: Vec<usize>)
        requires
            self.wf(),
            descriptors@.len() > 0 ==> self.spec_num_words() > 0,
        ensures
            r@.len() == descriptors@.len(),
            forall|i: int|
                0 <= i < r@.len() ==> #[trigger] r@[i] == self.spec_transform(descriptors@[i]),
    {
        let mut out: Vec<usize> = Vec::new();
        let mut i: usize = 0;
        while i < descriptors.len()
            invariant
                self.wf(),
                descriptors@.len() > 0 ==> self.spec_num_words() > 0,
                0 <= i <= descriptors@.len(),
                out@.len() == i,
                forall|k: int|
                    0 <= k < i ==> #[trigger] out@[k] == self.spec_transform(descriptors@[k]),
            decreases descriptors@.len() - i,
        {
            out.push(self.transform(&descriptors[i]));
            i = i + 1;
        }
        out
    }

    /// Vocabulary size.
    pub fn size(&self) -> (n: usize)
        ensures
            n == self.spec_num_words(),
    {
        self.num_words
    }

    /// Number of images recorded.
    pub fn num_images(&self) -> (n: usize)
        ensures
            n == self.spec_total_images(),
    {
        self.total_images
    }

    /// Number of recorded images that contain `word_id` (0 for an unknown word).
    pub fn image_count(&self, word_id: usize) -> (c: usize)
        requires
            self.wf(),
        ensures
            c == (if word_id < self.spec_num_words() { self.image_counts()[word_id as int] as int } else { 0 }),
    {
        if word_id < self.num_words {
            self.word_image_counts[word_id]
        } else {
            0
        }
    }

    /// Record an image containing the given words: the image total grows by
    /// one, and the count of each distinct valid word listed grows by one.
    pub fn record_image(&mut self, words_in_image: &[usize])
        requires
            old(self).wf(),
            old(self).spec_total_images() < usize::MAX,
            forall|w: int| 0 <= w < old(self).spec_num_words() ==> #[trigger] old(self).image_counts()[w] < usize::MAX,
        ensures
            final(self).wf(),
            final(self).spec_total_images() == old(self).spec_total_images() + 1,
            final(self).spec_num_words() == old(self).spec_num_words(),
            final(self).projections() == old(self).projections(),
            forall|w: int|
                0 <= w < old(self).spec_num_words() ==> #[trigger] final(self).image_counts()[w] == old(
                    self,
                ).image_counts()[w] + (if words_in_image@.contains(w as usize) { 1int } else { 0 }),
    {
        self.total_images = self.total_images + 1;
        let n = self.num_words;
        let mut seen: Vec<bool> = vec![false; n];
        let ghost counts0 = self.word_image_counts@;
        let mut i: usize = 0;
        while i < words_in_image.len()
            invariant
                0 <= i <= words_in_image@.len(),
                n == self.num_words,
                seen@.len() == n,
                self.word_image_counts@.len() == n,
                counts0 == old(self).word_image_counts@,
                self.projection_bits == old(self).projection_bits,
                self.num_words == old(self).num_words,
                self.total_images == old(self).total_images + 1,
                forall|w: int| 0 <= w < n ==> counts0[w] < usize::MAX,
                forall|w: int|
                    0 <= w < n ==> #[trigger] seen@[w] == words_in_image@.take(i as int).contains(
                        w as usize,
                    ),
                forall|w: int|
                    0 <= w < n ==> #[trigger] self.word_image_counts@[w] == counts0[w] + (if seen@[w] {
                        1int
                    } else {
                        0
                    }),
            decreases words_in_image@.len() - i,
        {
            let word_id = words_in_image[i];
            proof {
                let t = words_in_image@.take(i as int);
                let t1 = words_in_image@.take(i as int + 1);
                assert(t1 =~= t.push(word_id));
                assert forall|w: int| 0 <= w < n implies #[trigger] t1.contains(w as usize) == (t.contains(
                    w as usize,
                ) || w == word_id) by {
                    if t1.contains(w as usize) {
                        let k = choose|k: int| 0 <= k < t1.len() && t1[k] == w as usize;
                        if k < t.len() {
                            assert(t[k] == w as usize);
                        }
                    }
                    if t.contains(w as usize) {
                        let k = choose|k: int| 0 <= k < t.len() && t[k] == w as usize;
                        assert(t1[k] == w as usize);
                    }
                    if w == word_id {
                        assert(t1[i as int] == w as usize);
                    }
                }
            }
            if word_id < n && !seen[word_id] {
                seen.set(word_id, true);
                let c = self.word_image_counts[word_id];
                self.word_image_counts.set(word_id, c + 1);
            }
            i = i + 1;
        }
        proof {
            assert(words_in_image@.take(words_in_image@.len() as int) =~= words_in_image@);
            assert(self.projections() == old(self).projections());
            assert(self.image_counts().len() == self.spec_num_words());
        }
    }
}

} // verus!
