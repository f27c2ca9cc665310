use quar_engine::memory::frame_pool::{rgba_to_grayscale_frame, rgba_to_grayscale_into, FrameBuffer, FramePool};
use quar_engine::memory::MemoryConfig;

#[test]
fn test_frame_buffer_creation() {
    let buffer = FrameBuffer::with_capacity(1024);
    assert_eq!(buffer.capacity(), 1024);
    assert_eq!(buffer.len(), 0);
    assert!(buffer.is_empty());
}

#[test]
fn test_frame_buffer_dimensions() {
    let mut buffer = FrameBuffer::with_capacity(640 * 480);
    buffer.set_dimensions(640, 480);
    assert_eq!(buffer.width(), 640);
    assert_eq!(buffer.height(), 480);
    assert_eq!(buffer.len(), 640 * 480);
}

#[test]
fn test_frame_buffer_copy() {
    let mut buffer = FrameBuffer::with_capacity(10);
    let src = [1u8, 2, 3, 4, 5];
    buffer.copy_from_slice(&src);
    assert_eq!(buffer.len(), 5);
    assert_eq!(buffer.as_slice(), &[1, 2, 3, 4, 5]);
}

#[test]
fn test_frame_pool_creation() {
    let pool = FramePool::vga();
    assert_eq!(pool.available_grayscale(), 2);
    assert!(pool.available_pyramid() > 0);
}

#[test]
fn test_frame_pool_borrow_return() {
    let mut pool = FramePool::vga();

    let initial_count = pool.available_grayscale();
    let buffer = pool.borrow_grayscale().expect("Should have buffer");
    assert_eq!(pool.available_grayscale(), initial_count - 1);

    pool.return_grayscale(buffer);
    assert_eq!(pool.available_grayscale(), initial_count);
}

#[test]
fn test_rgba_to_grayscale_into() {
    let mut buffer = FrameBuffer::with_capacity(4);

    let rgba = [
        255, 0, 0, 255, // Red
        0, 255, 0, 255, // Green
        0, 0, 255, 255, // Blue
        255, 255, 255, 255, // White
    ];

    rgba_to_grayscale_into(&rgba, &mut buffer);

    assert_eq!(buffer.len(), 4);
    assert_eq!(buffer.as_slice()[0], 76);
    assert_eq!(buffer.as_slice()[1], 149);
    assert_eq!(buffer.as_slice()[2], 28);
    assert_eq!(buffer.as_slice()[3], 255);
}

#[test]
fn test_frame_buffer_clear() {
    let mut buffer = FrameBuffer::with_capacity(100);
    buffer.set_dimensions(10, 10);
    assert_eq!(buffer.len(), 100);

    buffer.clear();
    assert_eq!(buffer.len(), 0);
    assert_eq!(buffer.width(), 0);
    assert_eq!(buffer.height(), 0);
}

#[test]
fn copy_is_truncated_to_capacity_and_fill() {
    let mut buffer = FrameBuffer::with_capacity(3);
    buffer.copy_from_slice(&[9, 8, 7, 6, 5]);
    assert_eq!(buffer.as_slice(), &[9, 8, 7]);
    buffer.set_len(2);
    buffer.fill(1);
    assert_eq!(buffer.as_slice(), &[1, 1]);
    buffer.set_len(10);
    assert_eq!(buffer.len(), 3);
    assert_eq!(buffer.as_slice(), &[1, 1, 7]);
    buffer.as_mut_slice()[2] = 4;
    assert_eq!(buffer.as_slice(), &[1, 1, 4]);
    assert_eq!(buffer.as_mut_capacity().len(), 3);
}

#[test]
fn grayscale_frame_records_dimensions() {
    let mut buffer = FrameBuffer::with_capacity(8);
    rgba_to_grayscale_frame(&[255, 255, 255, 0, 0, 0, 0, 0], 2, 1, &mut buffer);
    assert_eq!(buffer.as_slice(), &[255, 0]);
    assert_eq!((buffer.width(), buffer.height()), (2, 1));
}

#[test]
fn pool_pyramid_borrow_by_level() {
    let mut pool = FramePool::vga();
    let cfg = pool.config().clone();
    assert_eq!(cfg.max_width, 640);
    let before = pool.available_pyramid();
    assert_eq!(before, cfg.max_pyramid_levels * cfg.pyramid_buffers);
    let b0 = pool.borrow_pyramid(0).unwrap();
    assert_eq!(b0.capacity(), 640 * 480);
    assert_eq!(pool.available_pyramid(), before - 1);
    assert!(pool.borrow_pyramid(cfg.max_pyramid_levels).is_none());
    pool.return_pyramid(b0);
    assert_eq!(pool.available_pyramid(), before);
}

#[test]
fn pool_returned_buffer_is_cleared_and_reset_clears_all() {
    let mut pool = FramePool::new(MemoryConfig::vga());
    let mut b = pool.borrow_grayscale().unwrap();
    b.set_dimensions(4, 4);
    pool.return_grayscale(b);
    let b = pool.borrow_grayscale().unwrap();
    assert_eq!(b.len(), 0);
    assert_eq!(b.width(), 0);
    pool.return_grayscale(b);
    pool.reset();
    assert_eq!(pool.available_grayscale(), 2);
    let _ = pool.borrow_grayscale();
    let _ = pool.borrow_grayscale();
    assert!(pool.borrow_grayscale().is_none());
}

#[test]
fn pool_pyramid_levels_are_served_after_earlier_borrows() {
    // two buffers per level: 640x480, 320x240, 160x120
    let mut pool = FramePool::vga();
    let a = pool.borrow_pyramid(0).unwrap();
    let b = pool.borrow_pyramid(0).unwrap();
    assert_eq!((a.capacity(), b.capacity()), (640 * 480, 640 * 480));
    assert!(pool.borrow_pyramid(0).is_none());
    let c = pool.borrow_pyramid(1).unwrap();
    assert_eq!(c.capacity(), 320 * 240);
    let d = pool.borrow_pyramid(2).unwrap();
    assert_eq!(d.capacity(), 160 * 120);
    // a returned buffer is found again for its level
    pool.return_pyramid(a);
    assert_eq!(pool.borrow_pyramid(0).unwrap().capacity(), 640 * 480);
}

#[test]
fn pool_reset_makes_every_buffer_available_again() {
    let mut pool = FramePool::vga();
    let mut g = pool.borrow_grayscale().unwrap();
    g.set_dimensions(8, 8);
    let _p = pool.borrow_pyramid(1).unwrap();
    let _q = pool.borrow_pyramid(0).unwrap();
    assert_eq!(pool.available_grayscale(), 1);
    assert_eq!(pool.available_pyramid(), 4);
    pool.reset();
    let cfg = pool.config().clone();
    assert_eq!(pool.available_grayscale(), cfg.grayscale_buffers);
    assert_eq!(pool.available_pyramid(), cfg.max_pyramid_levels * cfg.pyramid_buffers);
    for _ in 0..2 {
        let b = pool.borrow_grayscale().unwrap();
        assert_eq!((b.len(), b.width(), b.height(), b.capacity()), (0, 0, 0, 640 * 480));
    }
    for (level, size) in [(0usize, 640 * 480), (1, 320 * 240), (2, 160 * 120)] {
        for _ in 0..2 {
            let b = pool.borrow_pyramid(level).unwrap();
            assert_eq!((b.len(), b.width(), b.height(), b.capacity()), (0, 0, 0, size));
        }
    }
}
