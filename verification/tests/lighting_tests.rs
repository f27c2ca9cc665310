use quar_engine::lighting::schedule::AnalysisSchedule;
use quar_engine::lighting::analyzer::downsample_4x;
use quar_engine::lighting::color_temp::{detect_white_pixels, WHITE_BRIGHTNESS_THRESHOLD};
use quar_engine::lighting::histogram::compute_histogram;

#[test]
fn test_downsample_4x() {
    let gray: Vec<u8> = (0..64).map(|i| i as u8 * 4).collect();
    let (down, w, h) = downsample_4x(&gray, 8, 8);

    assert_eq!(w, 2);
    assert_eq!(h, 2);
    assert_eq!(down.len(), 4);
}

#[test]
fn test_downsample_4x_small() {
    let gray = vec![100u8; 9];
    let (down, w, h) = downsample_4x(&gray, 3, 3);
    assert_eq!(w, 0);
    assert_eq!(h, 0);
    assert!(down.is_empty());
}

#[test]
fn test_downsample_4x_values() {
    let gray = vec![100u8; 16];
    let (down, w, h) = downsample_4x(&gray, 4, 4);

    assert_eq!(w, 1);
    assert_eq!(h, 1);
    assert_eq!(down[0], 100);
}

#[test]
fn downsample_block_averages_round_down() {
    // 8x4 image: left block 0..16 in raster order of its own pixels
    let mut gray = vec![0u8; 32];
    for y in 0..4 {
        for x in 0..4 {
            gray[y * 8 + x] = (y * 4 + x) as u8; // sum 120, avg 7.5 -> 7
            gray[y * 8 + x + 4] = 255;
        }
    }
    let (down, w, h) = downsample_4x(&gray, 8, 4);
    assert_eq!((w, h), (2, 1));
    assert_eq!(down, vec![7, 255]);
}

#[test]
fn downsample_ignores_missing_pixels() {
    // the buffer is shorter than width * height: only present pixels count
    let gray = vec![40u8; 12];
    let (down, w, h) = downsample_4x(&gray, 4, 4);
    assert_eq!((w, h), (1, 1));
    assert_eq!(down, vec![40]);
}

#[test]
fn test_detect_white_pixels_white_image() {
    let rgba = vec![255, 255, 255, 255];
    let white = detect_white_pixels(&rgba, 1, 1);
    assert_eq!(white.len(), 1);
    assert_eq!(white[0], (255, 255, 255));
}

#[test]
fn test_detect_white_pixels_dark_image() {
    let rgba = vec![50, 50, 50, 255];
    let white = detect_white_pixels(&rgba, 1, 1);
    assert!(white.is_empty());
}

#[test]
fn test_detect_white_pixels_saturated() {
    let rgba = vec![255, 100, 100, 255];
    let white = detect_white_pixels(&rgba, 1, 1);
    assert!(white.is_empty());
}

#[test]
fn test_detect_white_pixels_mixed() {
    let rgba = vec![
        255, 255, 255, 255, // White
        255, 0, 0, 255, // Red (saturated)
        220, 220, 220, 255, // Light gray (white-ish)
        0, 0, 0, 255, // Black
    ];
    let white = detect_white_pixels(&rgba, 2, 2);
    assert_eq!(white.len(), 2);
}

#[test]
fn white_pixel_boundaries() {
    assert_eq!(WHITE_BRIGHTNESS_THRESHOLD, 200);
    // average exactly 200 counts, 199 does not
    assert_eq!(detect_white_pixels(&[200, 200, 200, 0], 1, 1).len(), 1);
    assert!(detect_white_pixels(&[199, 199, 199, 0], 1, 1).is_empty());
    // saturation (max-min)/max: 36/240 = 0.15 is not below 0.15
    assert!(detect_white_pixels(&[240, 204, 204, 0], 1, 1).is_empty());
    assert!(detect_white_pixels(&[236, 200, 200, 0], 1, 1).is_empty());
    // 35/235 < 0.15
    assert_eq!(detect_white_pixels(&[235, 200, 200, 0], 1, 1), vec![(235, 200, 200)]);
}

#[test]
fn white_pixels_only_within_pixel_count_and_buffer() {
    let rgba = vec![255u8; 16];
    // only the first pixel is examined
    assert_eq!(detect_white_pixels(&rgba, 1, 1).len(), 1);
    // more pixels claimed than the buffer holds
    assert_eq!(detect_white_pixels(&rgba, 3, 3).len(), 4);
}

#[test]
fn test_compute_histogram_empty() {
    let hist = compute_histogram(&[]);
    assert!(hist.iter().all(|&c| c == 0));
}

#[test]
fn test_compute_histogram_uniform() {
    let data = vec![128u8; 100];
    let hist = compute_histogram(&data);
    assert_eq!(hist[128], 100);
    assert_eq!(hist[0], 0);
    assert_eq!(hist[255], 0);
}

#[test]
fn test_compute_histogram_range() {
    let data: Vec<u8> = (0..=255).collect();
    let hist = compute_histogram(&data);
    for (i, &count) in hist.iter().enumerate() {
        assert_eq!(count, 1, "bin {} should have count 1", i);
    }
}

#[test]
fn histogram_total_is_pixel_count() {
    let data: Vec<u8> = (0..1000u32).map(|i| (i * 7 % 256) as u8).collect();
    let hist = compute_histogram(&data);
    let total: u32 = hist.iter().sum();
    assert_eq!(total, 1000);
}

use quar_engine::lighting::histogram::{histogram_percentile_bin, histogram_total};

#[test]
fn histogram_total_and_percentile_bins() {
    let mut hist = [0u32; 256];
    hist[10] = 5;
    hist[20] = 5;
    assert_eq!(histogram_total(&hist), 10);
    assert_eq!(histogram_percentile_bin(&hist, 0), 0);
    assert_eq!(histogram_percentile_bin(&hist, 1), 10);
    assert_eq!(histogram_percentile_bin(&hist, 5), 10);
    assert_eq!(histogram_percentile_bin(&hist, 6), 20);
    assert_eq!(histogram_percentile_bin(&hist, 10), 20);
    assert_eq!(histogram_percentile_bin(&hist, 11), 255);
    assert_eq!(histogram_total(&[u32::MAX; 256]), 256 * u32::MAX as u64);
}

use quar_engine::lighting::color_temp::{channel_sums, rgb_sums};
use quar_engine::lighting::histogram::histogram_weighted_sum;

#[test]
fn rgb_and_channel_sums() {
    assert_eq!(rgb_sums(&[]), (0, 0, 0));
    assert_eq!(rgb_sums(&[(255, 230, 200), (250, 225, 195)]), (505, 455, 395));
    let rgba = [10u8, 20, 30, 255, 1, 2, 3, 0, 100, 100];
    // two full pixels; the trailing bytes do not form a pixel
    assert_eq!(channel_sums(&rgba, 3, 1), (11, 22, 33, 2));
    // only the requested pixel count is examined
    assert_eq!(channel_sums(&rgba, 1, 1), (10, 20, 30, 1));
    assert_eq!(channel_sums(&[], 4, 4), (0, 0, 0, 0));
}

#[test]
fn histogram_weighted_sum_exact() {
    let mut hist = [0u32; 256];
    hist[2] = 3;
    hist[255] = 1;
    assert_eq!(histogram_weighted_sum(&hist), 6 + 255);
    assert_eq!(histogram_weighted_sum(&[0u32; 256]), 0);
}

#[test]
fn analysis_schedule_picks_every_interval_frame() {
    let mut s = AnalysisSchedule::new();
    assert_eq!(s.interval(), 6);
    let picked: Vec<bool> = (0..12).map(|_| s.tick()).collect();
    assert_eq!(picked, vec![false, false, false, false, false, true, false, false, false, false, false, true]);
    assert_eq!(s.frame_count(), 12);
    s.set_interval(0);
    assert_eq!(s.interval(), 1);
    assert!(s.tick());
    s.set_interval(2);
    s.reset();
    assert_eq!(s.frame_count(), 0);
    assert!(!s.tick());
    assert!(s.tick());
}
