//! Pre-allocated frame buffers and a pool that lends them out, so that
//! frame processing does not allocate.

use vstd::prelude::*;
use crate::memory::{MemoryConfig, level_size};
use crate::features::grayscale::luma;

verus! {

/// A pre-allocated buffer that can be borrowed from the pool.
#[derive(Debug)]
pub struct FrameBuffer {
    /// The underlying data
    data: Vec<u8>,
    /// Current logical size (may be less than capacity)
    len: usize,
    /// Width of the frame (if applicable)
    width: u32,
    /// Height of the frame (if applicable)
    height: u32,
}

impl FrameBuffer {
    /// All bytes of the buffer, up to its capacity.
    pub closed spec fn contents(&self) -> Seq<u8> {
        self.data@
    }

    /// Logical length.
    pub closed spec fn spec_len(&self) -> nat {
        self.len as nat
    }

    /// Frame width.
    pub closed spec fn spec_width(&self) -> u32 {
        self.width
    }

    /// Frame height.
    pub closed spec fn spec_height(&self) -> u32 {
        self.height
    }

    /// The logical length lies within the capacity.
    pub open spec fn wf(&self) -> bool {
        self.spec_len() <= self.contents().len()
    }

    /// `self` is `other` cleared: same bytes, no length and no dimensions.
    pub open spec fn is_cleared_of(&self, other: &FrameBuffer) -> bool {
        &&& self.contents() == other.contents()
        &&& self.spec_len() == 0
        &&& self.spec_width() == 0
        &&& self.spec_height() == 0
    }

    /// Create a new zero-filled buffer with the given capacity.
    pub fn with_capacity(capacity: usize) -> (b: Self)
        ensures
            b.contents().len() == capacity,
            forall|i: int| 0 <= i < capacity ==> b.contents()[i] == 0u8,
            b.spec_len() == 0,
            b.spec_width() == 0,
            b.spec_height() == 0,
    {
        let data = vec![0u8; capacity];
        FrameBuffer { data, len: 0, width: 0, height: 0 }
    }

    /// The logical contents as a slice.
    pub fn as_slice(&self) -> (s: &[u8])
        requires
            self.wf(),
        ensures
            s@ == self.contents().take(self.spec_len() as int),
    {
        &self.data.as_slice()[0..self.len]
    }

    /// The logical contents as a mutable slice.
    pub fn as_mut_slice(&mut self) -> (s: &mut [u8])
        requires
            old(self).wf(),
        ensures
            s@ == old(self).contents().take(old(self).spec_len() as int),
            final(self).contents() == final(s)@ + old(self).contents().skip(
                old(self).spec_len() as int,
            ),
            final(self).spec_len() == old(self).spec_len(),
            final(self).spec_width() == old(self).spec_width(),
            final(self).spec_height() == old(self).spec_height(),
    {
        let n = self.len;
        let (head, _tail) = self.data.as_mut_slice().split_at_mut(n);
        head
    }

    /// The whole capacity as a mutable slice, for writing.
    pub fn as_mut_capacity(&mut self) -> (s: &mut [u8])
        ensures
            s@ == old(self).contents(),
            final(self).contents() == final(s)@,
            final(self).spec_len() == old(self).spec_len(),
            final(self).spec_width() == old(self).spec_width(),
            final(self).spec_height() == old(self).spec_height(),
    {
        self.data.as_mut_slice()
    }

    /// Set the logical size, capped at the capacity.
    pub fn set_len(&mut self, len: usize)
        ensures
            final(self).spec_len() == (if len <= old(self).contents().len() {
                len as nat
            } else {
                old(self).contents().len()
            }),
            final(self).contents() == old(self).contents(),
            final(self).spec_width() == old(self).spec_width(),
            final(self).spec_height() == old(self).spec_height(),
    {
        let cap = self.data.len();
        self.len = if len <= cap { len } else { cap };
    }

    /// Set the frame dimensions; the logical size becomes width * height.
    pub fn set_dimensions(&mut self, width: u32, height: u32)
        requires
            width * height <= u32::MAX,
        ensures
            final(self).spec_width() == width,
            final(self).spec_height() == height,
            final(self).spec_len() == width * height,
            final(self).contents() == old(self).contents(),
    {
        self.width = width;
        self.height = height;
        self.len = (width * height) as usize;
    }

    /// Get the logical length.
    pub fn len(&self) -> (l: usize)
        ensures
            l == self.spec_len(),
    {
        self.len
    }

    /// Check if the buffer is empty.
    pub fn is_empty(&self) -> (b: bool)
        ensures
            b == (self.spec_len() == 0),
    {
        self.len == 0
    }

    /// Get the buffer capacity.
    pub fn capacity(&self) -> (c: usize)
        ensures
            c == self.contents().len(),
    {
        self.data.len()
    }

    /// Get the frame width.
    pub fn width(&self) -> (w: u32)
        ensures
            w == self.spec_width(),
    {
        self.width
    }

    /// Get the frame height.
    pub fn height(&self) -> (h: u32)
        ensures
            h == self.spec_height(),
    {
        self.height
    }

    /// Clear the buffer: reset length and dimensions, keep the bytes.
    pub fn clear(&mut self)
        ensures
            final(self).is_cleared_of(old(self)),
    {
        self.len = 0;
        self.width = 0;
        self.height = 0;
    }

    /// Copy as much of `src` as fits into the buffer; the logical size
    /// becomes the number of bytes copied.
    pub fn copy_from_slice(&mut self, src: &[u8])
        ensures
            ({
                let n = if src@.len() <= old(self).contents().len() {
                    src@.len()
                } else {
                    old(self).contents().len()
                };
                &&& final(self).spec_len() == n
                &&& final(self).contents() == src@.take(n as int) + old(self).contents().skip(
                    n as int,
                )
            }),
            final(self).spec_width() == old(self).spec_width(),
            final(self).spec_height() == old(self).spec_height(),
    {
        let cap = self.data.len();
        let n = if src.len() <= cap { src.len() } else { cap };
        let ghost before = self.data@;
        let mut i: usize = 0;
        while i < n
            invariant
                0 <= i <= n,
                n <= src@.len(),
                n <= before.len(),
                self.data@.len() == before.len(),
                self.width == old(self).width,
                self.height == old(self).height,
                forall|k: int| 0 <= k < i ==> #[trigger] self.data@[k] == src@[k],
                forall|k: int| i <= k < before.len() ==> #[trigger] self.data@[k] == before[k],
            decreases n - i,
        {
            self.data[i] = src[i];
            i = i + 1;
        }
        self.len = n;
        proof {
            assert(self.data@ =~= src@.take(n as int) + before.skip(n as int));
        }
    }

    /// Fill the logical contents with a value.
    pub fn fill(&mut self, value: u8)
        requires
            old(self).wf(),
        ensures
            final(self).contents().len() == old(self).contents().len(),
            forall|i: int| 0 <= i < old(self).spec_len() ==> final(self).contents()[i] == value,
            forall|i: int|
                old(self).spec_len() <= i < old(self).contents().len() ==> final(self).contents()[i]
                    == old(self).contents()[i],
            final(self).spec_len() == old(self).spec_len(),
            final(self).spec_width() == old(self).spec_width(),
            final(self).spec_height() == old(self).spec_height(),
    {
        let ghost before = self.data@;
        let mut i: usize = 0;
        while i < self.len
            invariant
                0 <= i <= self.len,
                self.len <= before.len(),
                self.data@.len() == before.len(),
                self.len == old(self).len,
                self.width == old(self).width,
                self.height == old(self).height,
                before == old(self).data@,
                forall|k: int| 0 <= k < i ==> #[trigger] self.data@[k] == value,
                forall|k: int| i <= k < before.len() ==> #[trigger] self.data@[k] == before[k],
            decreases self.len - i,
        {
            self.data[i] = value;
            i = i + 1;
        }
    }
}

/// `bufs` are the grayscale buffers of a fresh pool of `config`:
/// `grayscale_buffers` cleared buffers of one full frame each.
pub open spec fn fresh_grayscale_buffers(bufs: Seq<FrameBuffer>, config: MemoryConfig) -> bool {
    &&& bufs.len() == config.grayscale_buffers
    &&& forall|i: int|
        0 <= i < bufs.len() ==> {
            &&& (#[trigger] bufs[i]).contents().len() == config.max_width * config.max_height
            &&& bufs[i].spec_len() == 0
            &&& bufs[i].spec_width() == 0
            &&& bufs[i].spec_height() == 0
        }
}

/// Number of pixels of pyramid level `level` of `config`.
pub open spec fn level_pixels(config: MemoryConfig, level: int) -> int {
    level_size(config.max_width as int, level) * level_size(config.max_height as int, level)
}

/// `bufs` are the pyramid buffers of a fresh pool of `config`: for each
/// level in turn, `pyramid_buffers` cleared buffers the size of that level.
pub open spec fn fresh_pyramid_buffers(bufs: Seq<FrameBuffer>, config: MemoryConfig) -> bool {
    &&& bufs.len() == config.max_pyramid_levels * config.pyramid_buffers
    &&& forall|i: int|
        0 <= i < bufs.len() ==> {
            &&& (#[trigger] bufs[i]).contents().len() == level_pixels(config, i / config.pyramid_buffers as int)
            &&& bufs[i].spec_len() == 0
            &&& bufs[i].spec_width() == 0
            &&& bufs[i].spec_height() == 0
        }
}

/// The grayscale buffers of a fresh pool.
fn make_grayscale_buffers(config: &MemoryConfig) -> (bufs: Vec<FrameBuffer>)
    requires
        config.max_width * config.max_height <= u32::MAX,
    ensures
        fresh_grayscale_buffers(bufs@, *config),
{
    let grayscale_size = config.max_grayscale_size();
    let mut grayscale_buffers: Vec<FrameBuffer> = Vec::new();
    let mut g: usize = 0;
    while g < config.grayscale_buffers
        invariant
            0 <= g <= config.grayscale_buffers,
            grayscale_size == config.max_width * config.max_height,
            grayscale_buffers@.len() == g,
            forall|i: int|
                0 <= i < g ==> {
                    &&& (#[trigger] grayscale_buffers@[i]).contents().len() == grayscale_size
                    &&& grayscale_buffers@[i].spec_len() == 0
                    &&& grayscale_buffers@[i].spec_width() == 0
                    &&& grayscale_buffers@[i].spec_height() == 0
                },
        decreases config.grayscale_buffers - g,
    {
        grayscale_buffers.push(FrameBuffer::with_capacity(grayscale_size));
        g = g + 1;
    }
    grayscale_buffers
}

/// The pyramid buffers of a fresh pool, level after level.
fn make_pyramid_buffers(config: &MemoryConfig) -> (bufs: Vec<FrameBuffer>)
    requires
        config.max_width * config.max_height <= u32::MAX,
        config.max_pyramid_levels * config.pyramid_buffers <= usize::MAX,
    ensures
        fresh_pyramid_buffers(bufs@, *config),
{
    let pb = config.pyramid_buffers;
    let mut pyramid_buffers: Vec<FrameBuffer> = Vec::new();
    let mut w: u32 = config.max_width;
    let mut h: u32 = config.max_height;
    let mut level: usize = 0;
    while level < config.max_pyramid_levels
        invariant
            0 <= level <= config.max_pyramid_levels,
            pb == config.pyramid_buffers,
            config.max_width * config.max_height <= u32::MAX,
            config.max_pyramid_levels * config.pyramid_buffers <= usize::MAX,
            w == level_size(config.max_width as int, level as int),
            h == level_size(config.max_height as int, level as int),
            w <= config.max_width,
            h <= config.max_height,
            pyramid_buffers@.len() == level * pb,
            forall|i: int|
                0 <= i < pyramid_buffers@.len() ==> {
                    &&& (#[trigger] pyramid_buffers@[i]).contents().len() == level_size(
                        config.max_width as int,
                        i / pb as int,
                    ) * level_size(config.max_height as int, i / pb as int)
                    &&& pyramid_buffers@[i].spec_len() == 0
                    &&& pyramid_buffers@[i].spec_width() == 0
                    &&& pyramid_buffers@[i].spec_height() == 0
                },
        decreases config.max_pyramid_levels - level,
    {
        proof {
            assert(w * h <= config.max_width * config.max_height) by (nonlinear_arith)
                requires
                    w <= config.max_width,
                    h <= config.max_height,
            ;
            assert((level + 1) * pb <= config.max_pyramid_levels * pb) by (nonlinear_arith)
                requires
                    level + 1 <= config.max_pyramid_levels,
            ;
            assert((level + 1) * pb == level * pb + pb) by (nonlinear_arith);
        }
        let level_size_now = (w * h) as usize;
        let mut j: usize = 0;
        while j < pb
            invariant
                0 <= j <= pb,
                pb == config.pyramid_buffers,
                level < config.max_pyramid_levels,
                (level + 1) * pb <= usize::MAX,
                (level + 1) * pb == level * pb + pb,
                level_size_now == level_size(config.max_width as int, level as int) * level_size(
                    config.max_height as int,
                    level as int,
                ),
                pyramid_buffers@.len() == level * pb + j,
                forall|i: int|
                    0 <= i < pyramid_buffers@.len() ==> {
                        &&& (#[trigger] pyramid_buffers@[i]).contents().len() == level_size(
                            config.max_width as int,
                            i / pb as int,
                        ) * level_size(config.max_height as int, i / pb as int)
                        &&& pyramid_buffers@[i].spec_len() == 0
                        &&& pyramid_buffers@[i].spec_width() == 0
                        &&& pyramid_buffers@[i].spec_height() == 0
                    },
            decreases pb - j,
        {
            proof {
                vstd::arithmetic::div_mod::lemma_fundamental_div_mod_converse(
                    (level * pb + j) as int,
                    pb as int,
                    level as int,
                    j as int,
                );
            }
            pyramid_buffers.push(FrameBuffer::with_capacity(level_size_now));
            j = j + 1;
        }
        w = w / 2 + w % 2;
        h = h / 2 + h % 2;
        level = level + 1;
    }
    pyramid_buffers
}

/// Pool of pre-allocated frame buffers: grayscale buffers, and pyramid
/// buffers stored level after level.
pub struct FramePool {
    /// Grayscale frame buffers
    grayscale_buffers: Vec<FrameBuffer>,
    /// Pyramid level buffers (flattened)
    pyramid_buffers: Vec<FrameBuffer>,
    /// Configuration
    config: MemoryConfig,
}

impl FramePool {
    /// The configuration's frame and pyramid sizes fit their integer types,
    /// as `new` requires of it.
    pub open spec fn sizes_fit(&self) -> bool {
        &&& self.spec_config().max_width * self.spec_config().max_height <= u32::MAX
        &&& self.spec_config().max_pyramid_levels * self.spec_config().pyramid_buffers <= usize::MAX
    }

    /// The grayscale buffers available.
    pub closed spec fn grayscale(&self) -> Seq<FrameBuffer> {
        self.grayscale_buffers@
    }

    /// The pyramid buffers available.
    pub closed spec fn pyramid(&self) -> Seq<FrameBuffer> {
        self.pyramid_buffers@
    }

    /// The configuration the pool was made with.
    pub closed spec fn spec_config(&self) -> MemoryConfig {
        self.config
    }

    /// Create a pool with the given configuration: `grayscale_buffers`
    /// buffers of one full frame each, and for each pyramid level in turn,
    /// `pyramid_buffers` buffers the size of that level.
    pub fn new(config: MemoryConfig) -> (p: Self)
        requires
            config.max_width * config.max_height <= u32::MAX,
            config.max_pyramid_levels * config.pyramid_buffers <= usize::MAX,
        ensures
            p.spec_config() == config,
            p.sizes_fit(),
            fresh_grayscale_buffers(p.grayscale(), config),
            fresh_pyramid_buffers(p.pyramid(), config),
    {
        let grayscale_buffers = make_grayscale_buffers(&config);
        let pyramid_buffers = make_pyramid_buffers(&config);
        FramePool { grayscale_buffers, pyramid_buffers, config }
    }

    /// A pool with the VGA configuration.
    pub fn vga() -> (p: Self)
        ensures
            p.spec_config() == MemoryConfig::vga_spec(),
            p.grayscale().len() == 2,
            p.pyramid().len() == 6,
    {
        Self::new(MemoryConfig::vga())
    }

    /// A pool with the HD configuration.
    pub fn hd() -> (p: Self)
        ensures
            p.spec_config() == MemoryConfig::hd_spec(),
            p.grayscale().len() == 2,
            p.pyramid().len() == 8,
    {
        Self::new(MemoryConfig::hd())
    }

    /// Borrow the last grayscale buffer from the pool; None when none is left.
    pub fn borrow_grayscale(&mut self) -> (r: Option<FrameBuffer>)
        ensures
            old(self).grayscale().len() == 0 ==> r is None && final(self).grayscale() == old(
                self,
            ).grayscale(),
            old(self).grayscale().len() > 0 ==> r == Some(old(self).grayscale().last())
                && final(self).grayscale() == old(self).grayscale().drop_last(),
            final(self).pyramid() == old(self).pyramid(),
            final(self).spec_config() == old(self).spec_config(),
    {
        self.grayscale_buffers.pop()
    }

    /// Return a grayscale buffer to the pool, cleared.
    pub fn return_grayscale(&mut self, buffer: FrameBuffer)
        ensures
            final(self).grayscale().len() == old(self).grayscale().len() + 1,
            final(self).grayscale().drop_last() == old(self).grayscale(),
            final(self).grayscale().last().is_cleared_of(&buffer),
            final(self).pyramid() == old(self).pyramid(),
            final(self).spec_config() == old(self).spec_config(),
    {
        let mut buffer = buffer;
        buffer.clear();
        self.grayscale_buffers.push(buffer);
        proof {
            assert(self.grayscale_buffers@.drop_last() =~= old(self).grayscale_buffers@);
        }
    }

    /// Borrow a pyramid buffer for the given level (level 0 is full
    /// resolution): the first buffer in the pool of that level's size, or
    /// None when the level does not exist or no such buffer is left.
    pub fn borrow_pyramid(&mut self, level: usize) -> (r: Option<FrameBuffer>)
        requires
            old(self).sizes_fit(),
        ensures
            ({
                let c = old(self).spec_config();
                let size = level_pixels(c, level as int);
                let ps = old(self).pyramid();
                &&& r is Some <==> (level < c.max_pyramid_levels && exists|i: int|
                    0 <= i < ps.len() && (#[trigger] ps[i]).contents().len() == size)
                &&& r matches Some(b) ==> exists|i: int|
                    0 <= i < ps.len() && ps[i] == b && b.contents().len() == size && (forall|j: int|
                        0 <= j < i ==> (#[trigger] ps[j]).contents().len() != size) && final(self).pyramid()
                        == ps.remove(i)
                &&& r is None ==> final(self).pyramid() == ps
            }),
            final(self).grayscale() == old(self).grayscale(),
            final(self).spec_config() == old(self).spec_config(),
    {
        if level >= self.config.max_pyramid_levels {
            return None;
        }
        let size = self.level_capacity(level);
        let mut i: usize = 0;
        while i < self.pyramid_buffers.len()
            invariant
                0 <= i <= self.pyramid_buffers@.len(),
                size == level_pixels(self.config, level as int),
                level < self.config.max_pyramid_levels,
                self.pyramid_buffers@ == old(self).pyramid_buffers@,
                self.grayscale_buffers@ == old(self).grayscale_buffers@,
                self.config == old(self).config,
                forall|j: int| 0 <= j < i ==> (#[trigger] self.pyramid_buffers@[j]).contents().len() != size,
            decreases self.pyramid_buffers@.len() - i,
        {
            if self.pyramid_buffers[i].capacity() == size {
                let b = self.pyramid_buffers.remove(i);
                proof {
                    let ps = old(self).pyramid();
                    assert(ps[i as int] == b);
                    assert(ps[i as int].contents().len() == size);
                    assert(self.pyramid() == ps.remove(i as int));
                    assert(forall|j: int| 0 <= j < i ==> (#[trigger] ps[j]).contents().len() != size);
                }
                return Some(b);
            }
            i = i + 1;
        }
        None
    }

    /// Number of pixels of a pyramid level.
    fn level_capacity(&self, level: usize) -> (n: usize)
        requires
            self.sizes_fit(),
            level < self.spec_config().max_pyramid_levels,
        ensures
            n == level_pixels(self.spec_config(), level as int),
    {
        let mut w: u32 = self.config.max_width;
        let mut h: u32 = self.config.max_height;
        let mut l: usize = 0;
        while l < level
            invariant
                0 <= l <= level,
                w == level_size(self.config.max_width as int, l as int),
                h == level_size(self.config.max_height as int, l as int),
                w <= self.config.max_width,
                h <= self.config.max_height,
            decreases level - l,
        {
            w = w / 2 + w % 2;
            h = h / 2 + h % 2;
            l = l + 1;
        }
        proof {
            assert(w * h <= self.config.max_width * self.config.max_height) by (nonlinear_arith)
                requires
                    w <= self.config.max_width,
                    h <= self.config.max_height,
            ;
        }
        (w * h) as usize
    }

    /// Return a pyramid buffer to the pool, cleared, at the end.
    pub fn return_pyramid(&mut self, buffer: FrameBuffer)
        ensures
            final(self).pyramid().len() == old(self).pyramid().len() + 1,
            final(self).pyramid().drop_last() == old(self).pyramid(),
            final(self).pyramid().last().is_cleared_of(&buffer),
            final(self).grayscale() == old(self).grayscale(),
            final(self).spec_config() == old(self).spec_config(),
    {
        let mut buffer = buffer;
        buffer.clear();
        self.pyramid_buffers.push(buffer);
        proof {
            assert(self.pyramid_buffers@.drop_last() =~= old(self).pyramid_buffers@);
        }
    }

    /// Number of grayscale buffers available.
    pub fn available_grayscale(&self) -> (n: usize)
        ensures
            n == self.grayscale().len(),
    {
        self.grayscale_buffers.len()
    }

    /// Number of pyramid buffers available.
    pub fn available_pyramid(&self) -> (n: usize)
        ensures
            n == self.pyramid().len(),
    {
        self.pyramid_buffers.len()
    }

    /// The configuration.
    pub fn config(&self) -> (c: &MemoryConfig)
        ensures
            *c == self.spec_config(),
    {
        &self.config
    }

    /// Return every buffer to the pool: it again holds, cleared, the
    /// grayscale and pyramid buffers a fresh pool of its configuration holds.
    pub fn reset(&mut self)
        requires
            old(self).sizes_fit(),
        ensures
            final(self).spec_config() == old(self).spec_config(),
            fresh_grayscale_buffers(final(self).grayscale(), old(self).spec_config()),
            fresh_pyramid_buffers(final(self).pyramid(), old(self).spec_config()),
    {
        self.grayscale_buffers = make_grayscale_buffers(&self.config);
        self.pyramid_buffers = make_pyramid_buffers(&self.config);
    }
}

/// Convert RGBA data to grayscale into a pre-allocated buffer, one pixel per
/// full 4 bytes; the buffer's logical size becomes the pixel count.
pub fn rgba_to_grayscale_into(rgba: &[u8], dest: &mut FrameBuffer)
    requires
        rgba@.len() / 4 <= old(dest).contents().len(),
    ensures
        final(dest).spec_len() == rgba@.len() / 4,
        final(dest).contents().len() == old(dest).contents().len(),
        forall|i: int|
            0 <= i < rgba@.len() / 4 ==> #[trigger] final(dest).contents()[i] == luma(
                rgba@[4 * i] as int,
                rgba@[4 * i + 1] as int,
                rgba@[4 * i + 2] as int,
            ),
        forall|i: int|
            rgba@.len() / 4 <= i < old(dest).contents().len() ==> #[trigger] final(dest).contents()[i]
                == old(dest).contents()[i],
        final(dest).spec_width() == old(dest).spec_width(),
        final(dest).spec_height() == old(dest).spec_height(),
{
    let pixel_count = rgba.len() / 4;
    dest.set_len(pixel_count);
    let ghost before = dest.contents();
    let mut i: usize = 0;
    while i < pixel_count
        invariant
            pixel_count == rgba@.len() / 4,
            0 <= i <= pixel_count,
            pixel_count <= before.len(),
            dest.spec_len() == pixel_count,
            dest.contents().len() == before.len(),
            dest.spec_width() == old(dest).spec_width(),
            dest.spec_height() == old(dest).spec_height(),
            before == old(dest).contents(),
            forall|k: int|
                0 <= k < i ==> #[trigger] dest.contents()[k] == luma(
                    rgba@[4 * k] as int,
                    rgba@[4 * k + 1] as int,
                    rgba@[4 * k + 2] as int,
                ),
            forall|k: int| i <= k < before.len() ==> #[trigger] dest.contents()[k] == before[k],
        decreases pixel_count - i,
    {
        proof {
            assert(rgba@.len() == rgba.len());
            assert(4 * i + 3 < rgba@.len());
        }
        let y = crate::features::grayscale::pixel_to_grayscale(
            rgba[i * 4],
            rgba[i * 4 + 1],
            rgba[i * 4 + 2],
        );
        dest.write_byte(i, y);
        i = i + 1;
    }
}

/// Convert RGBA data to grayscale into a pre-allocated buffer and record
/// the frame dimensions.
pub fn rgba_to_grayscale_frame(rgba: &[u8], width: u32, height: u32, dest: &mut FrameBuffer)
    requires
        rgba@.len() / 4 <= old(dest).contents().len(),
    ensures
        final(dest).spec_len() == rgba@.len() / 4,
        final(dest).contents().len() == old(dest).contents().len(),
        forall|i: int|
            0 <= i < rgba@.len() / 4 ==> #[trigger] final(dest).contents()[i] == luma(
                rgba@[4 * i] as int,
                rgba@[4 * i + 1] as int,
                rgba@[4 * i + 2] as int,
            ),
        forall|i: int|
            rgba@.len() / 4 <= i < old(dest).contents().len() ==> #[trigger] final(dest).contents()[i]
                == old(dest).contents()[i],
        final(dest).spec_width() == width,
        final(dest).spec_height() == height,
{
    rgba_to_grayscale_into(rgba, dest);
    dest.width = width;
    dest.height = height;
}

impl FrameBuffer {
    /// Write one byte below the logical length.
    fn write_byte(&mut self, i: usize, v: u8)
        requires
            i < old(self).spec_len(),
            old(self).wf(),
        ensures
            final(self).contents() == old(self).contents().update(i as int, v),
            final(self).spec_len() == old(self).spec_len(),
            final(self).spec_width() == old(self).spec_width(),
            final(self).spec_height() == old(self).spec_height(),
    {
        self.data[i] = v;
    }
}

/// Borrowing a grayscale buffer and handing it back leaves the pool with as
/// many grayscale buffers as before: the others in their places, the borrowed
/// one last and cleared.
pub proof fn lemma_borrow_then_return_grayscale(
    before: FramePool,
    borrowed: FramePool,
    returned: FramePool,
    b: FrameBuffer,
)
    requires
        before.grayscale().len() > 0,
        b == before.grayscale().last(),
        borrowed.grayscale() == before.grayscale().drop_last(),
        returned.grayscale().len() == borrowed.grayscale().len() + 1,
        returned.grayscale().drop_last() == borrowed.grayscale(),
        returned.grayscale().last().is_cleared_of(&b),
    ensures
        returned.grayscale().len() == before.grayscale().len(),
        forall|i: int|
            0 <= i < before.grayscale().len() - 1 ==> #[trigger] returned.grayscale()[i]
                == before.grayscale()[i],
        returned.grayscale().last().is_cleared_of(&before.grayscale().last()),
{
    assert forall|i: int| 0 <= i < before.grayscale().len() - 1 implies #[trigger] returned.grayscale()[i]
        == before.grayscale()[i] by {
        assert(returned.grayscale().drop_last()[i] == returned.grayscale()[i]);
        assert(before.grayscale().drop_last()[i] == before.grayscale()[i]);
    }
}

} // verus!
