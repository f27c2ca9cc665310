//! Memory management for allocation-free frame processing: frame buffer
//! pools and arena allocation.

pub mod arena;
pub mod frame_pool;

use vstd::prelude::*;

verus! {

/// Width or height of pyramid level `level`: the full size at level 0,
/// halved (rounding up) at each further level.
pub open spec fn level_size(full: int, level: int) -> int
    decreases level,
{
    if level <= 0 {
        full
    } else {
        let s = level_size(full, level - 1);
        s / 2 + s % 2
    }
}

/// Total number of pixels in the first `levels` levels of a pyramid over a
/// `w` x `h` image.
pub open spec fn pyramid_pixels(w: int, h: int, levels: int) -> int
    decreases levels,
{
    if levels <= 0 {
        0
    } else {
        pyramid_pixels(w, h, levels - 1) + level_size(w, levels - 1) * level_size(h, levels - 1)
    }
}

/// Configuration for memory pools.
#[derive(Debug, Clone)]
pub struct MemoryConfig {
    /// Maximum frame width supported
    pub max_width: u32,
    /// Maximum frame height supported
    pub max_height: u32,
    /// Number of grayscale buffers to pre-allocate
    pub grayscale_buffers: usize,
    /// Number of pyramid buffers per level
    pub pyramid_buffers: usize,
    /// Maximum pyramid levels
    pub max_pyramid_levels: usize,
    /// Arena size for per-frame allocations (bytes)
    pub arena_size: usize,
}

impl Default for MemoryConfig {
    /// 1280x720 frames, two grayscale buffers, two buffers for each of four
    /// pyramid levels, and a 256 KiB arena.
    fn default() -> (c: Self)
        ensures
            c.max_width == 1280,
            c.max_height == 720,
            c.grayscale_buffers == 2,
            c.pyramid_buffers == 2,
            c.max_pyramid_levels == 4,
            c.arena_size == 256 * 1024,
    {
        MemoryConfig {
            max_width: 1280,
            max_height: 720,
            grayscale_buffers: 2,
            pyramid_buffers: 2,
            max_pyramid_levels: 4,
            arena_size: 256 * 1024,
        }
    }
}

impl MemoryConfig {
    /// The VGA configuration.
    pub open spec fn vga_spec() -> MemoryConfig {
        MemoryConfig {
            max_width: 640,
            max_height: 480,
            grayscale_buffers: 2,
            pyramid_buffers: 2,
            max_pyramid_levels: 3,
            arena_size: 131072,
        }
    }

    /// The HD (default) configuration.
    pub open spec fn hd_spec() -> MemoryConfig {
        MemoryConfig {
            max_width: 1280,
            max_height: 720,
            grayscale_buffers: 2,
            pyramid_buffers: 2,
            max_pyramid_levels: 4,
            arena_size: 262144,
        }
    }

    /// Configuration for 640x480 processing: two grayscale buffers, two
    /// buffers for each of three pyramid levels, and a 128 KiB arena.
    pub fn vga() -> (c: Self)
        ensures
            c.max_width == 640,
            c.max_height == 480,
            c.grayscale_buffers == 2,
            c.pyramid_buffers == 2,
            c.max_pyramid_levels == 3,
            c.arena_size == 128 * 1024,
    {
        MemoryConfig {
            max_width: 640,
            max_height: 480,
            grayscale_buffers: 2,
            pyramid_buffers: 2,
            max_pyramid_levels: 3,
            arena_size: 128 * 1024,
        }
    }

    /// Configuration for HD (1280x720) processing: the default configuration.
    pub fn hd() -> (c: Self)
        ensures
            c.max_width == 1280,
            c.max_height == 720,
            c.grayscale_buffers == 2,
            c.pyramid_buffers == 2,
            c.max_pyramid_levels == 4,
            c.arena_size == 256 * 1024,
    {
        Self::default()
    }

    /// Size in bytes of a full-resolution grayscale buffer.
    pub fn max_grayscale_size(&self) -> (s: usize)
        requires
            self.max_width * self.max_height <= u32::MAX,
        ensures
            s == self.max_width * self.max_height,
    {
        (self.max_width * self.max_height) as usize
    }

    /// Total pyramid memory for one frame: the pixels of all
    /// `max_pyramid_levels` levels, each level half the size (rounded up) of
    /// the one before.
    pub fn pyramid_memory_size(&self) -> (s: usize)
        requires
            self.max_width * self.max_height <= u32::MAX,
            pyramid_pixels(
                self.max_width as int,
                self.max_height as int,
                self.max_pyramid_levels as int,
            ) <= usize::MAX,
        ensures
            s == pyramid_pixels(
                self.max_width as int,
                self.max_height as int,
                self.max_pyramid_levels as int,
            ),
    {
        let mut size: usize = 0;
        let mut w: u32 = self.max_width;
        let mut h: u32 = self.max_height;
        let mut level: usize = 0;
        while level < self.max_pyramid_levels
            invariant
                0 <= level <= self.max_pyramid_levels,
                w == level_size(self.max_width as int, level as int),
                h == level_size(self.max_height as int, level as int),
                w <= self.max_width,
                h <= self.max_height,
                self.max_width * self.max_height <= u32::MAX,
                size == pyramid_pixels(self.max_width as int, self.max_height as int, level as int),
                pyramid_pixels(
                    self.max_width as int,
                    self.max_height as int,
                    self.max_pyramid_levels as int,
                ) <= usize::MAX,
            decreases self.max_pyramid_levels - level,
        {
            proof {
                assert(w * h <= self.max_width * self.max_height) by (nonlinear_arith)
                    requires
                        w <= self.max_width,
                        h <= self.max_height,
                ;
                lemma_pyramid_monotone(
                    self.max_width as int,
                    self.max_height as int,
                    level as int + 1,
                    self.max_pyramid_levels as int,
                );
            }
            size = size + (w * h) as usize;
            w = w / 2 + w % 2;
            h = h / 2 + h % 2;
            level = level + 1;
        }
        size
    }
}

/// Pyramid pixel counts grow with the number of levels.
proof fn lemma_pyramid_monotone(w: int, h: int, a: int, b: int)
    requires
        0 <= a <= b,
        w >= 0,
        h >= 0,
    ensures
        pyramid_pixels(w, h, a) <= pyramid_pixels(w, h, b),
    decreases b - a,
{
    if a < b {
        lemma_pyramid_monotone(w, h, a, b - 1);
        lemma_level_nonneg(w, b - 1);
        lemma_level_nonneg(h, b - 1);
        assert(level_size(w, b - 1) * level_size(h, b - 1) >= 0) by (nonlinear_arith)
            requires
                level_size(w, b - 1) >= 0,
                level_size(h, b - 1) >= 0,
        ;
    }
}

proof fn lemma_level_nonneg(full: int, level: int)
    requires
        full >= 0,
    ensures
        0 <= level_size(full, level) <= full,
    decreases level,
{
    if level > 0 {
        lemma_level_nonneg(full, level - 1);
    }
}

} // verus!
