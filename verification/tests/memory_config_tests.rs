use quar_engine::memory::MemoryConfig;

#[test]
fn test_default_config() {
    let config = MemoryConfig::default();
    assert_eq!(config.max_width, 1280);
    assert_eq!(config.max_height, 720);
    assert_eq!(config.max_grayscale_size(), 1280 * 720);
}

#[test]
fn test_vga_config() {
    let config = MemoryConfig::vga();
    assert_eq!(config.max_width, 640);
    assert_eq!(config.max_height, 480);
    assert_eq!(config.max_grayscale_size(), 640 * 480);
}

#[test]
fn test_pyramid_memory_size() {
    let config = MemoryConfig::vga();
    let expected = 640 * 480 + 320 * 240 + 160 * 120;
    assert_eq!(config.pyramid_memory_size(), expected);
}

#[test]
fn hd_config_and_odd_sizes_round_up() {
    let hd = MemoryConfig::hd();
    assert_eq!(hd.max_pyramid_levels, 4);
    assert_eq!(hd.pyramid_memory_size(), 1280 * 720 + 640 * 360 + 320 * 180 + 160 * 90);
    let odd = MemoryConfig {
        max_width: 5,
        max_height: 3,
        grayscale_buffers: 1,
        pyramid_buffers: 1,
        max_pyramid_levels: 3,
        arena_size: 0,
    };
    // 5x3, then 3x2, then 2x1
    assert_eq!(odd.pyramid_memory_size(), 15 + 6 + 2);
}
