use quar_engine::features::orientation::{circle_offsets_r15, has_valid_orientation_patch, DEFAULT_PATCH_RADIUS};

#[test]
fn test_has_valid_orientation_patch() {
    assert!(has_valid_orientation_patch(100, 100, 50, 50, 15));
    assert!(!has_valid_orientation_patch(100, 100, 10, 50, 15));
    assert!(!has_valid_orientation_patch(100, 100, 50, 10, 15));
    assert!(!has_valid_orientation_patch(100, 100, 90, 50, 15));
    assert!(!has_valid_orientation_patch(100, 100, 50, 90, 15));
}

#[test]
fn patch_edges_are_exact() {
    let r = DEFAULT_PATCH_RADIUS;
    assert_eq!(r, 15);
    assert!(has_valid_orientation_patch(100, 100, 15, 15, r));
    assert!(!has_valid_orientation_patch(100, 100, 14, 15, r));
    assert!(has_valid_orientation_patch(100, 100, 84, 84, r));
    assert!(!has_valid_orientation_patch(100, 100, 85, 84, r));
    // a patch wider than the image never fits
    assert!(!has_valid_orientation_patch(20, 20, 15, 15, r));
}

use quar_engine::features::orientation::{offset_moments, patch_moments};

#[test]
fn moments_of_uniform_patch_are_zero() {
    let image = vec![128u8; 50 * 50];
    assert_eq!(patch_moments(&image, 50, 50, 25, 25, 15), (0, 0));
    assert_eq!(patch_moments(&image, 50, 50, 25, 25, 3), (0, 0));
}

#[test]
fn moments_of_small_disk_exact() {
    // 3x3 image, radius 1: the centre and its four neighbours count
    let image = vec![
        1, 2, 3, //
        4, 5, 6, //
        7, 8, 9,
    ];
    // m10 = 6 - 4, m01 = 8 - 2
    assert_eq!(patch_moments(&image, 3, 3, 1, 1, 1), (2, 6));
}

#[test]
fn moments_follow_the_gradient() {
    let mut image = vec![0u8; 50 * 50];
    for y in 0..50 {
        for x in 0..50 {
            image[y * 50 + x] = (x * 5).min(255) as u8;
        }
    }
    let (m10, m01) = patch_moments(&image, 50, 50, 25, 25, 7);
    assert!(m10 > 0);
    assert_eq!(m01, 0);
}

#[test]
fn offset_moments_exact() {
    let image = vec![
        1, 2, 3, //
        4, 5, 6, //
        7, 8, 9,
    ];
    let offs = [(1, 0), (0, -1), (-1, 1)];
    // m10 = 1*6 + 0*2 + (-1)*7, m01 = 0*6 + (-1)*2 + 1*7
    assert_eq!(offset_moments(&image, 3, 1, 1, &offs), (-1, 5));
    assert_eq!(offset_moments(&image, 3, 1, 1, &[]), (0, 0));
}

#[test]
fn test_circle_offsets_count() {
    // Verify the number of pixels in radius 15 circle
    // Area is about pi * 15^2 = 706.86, so should be roughly that many pixels
    let count = circle_offsets_r15().len();
    assert!(count > 600 && count < 800, "Circle offset count: {}", count);
}

#[test]
fn circle_offsets_stay_within_the_radius() {
    let offsets = circle_offsets_r15();
    assert!(offsets.iter().all(|&(dx, dy)| dx.abs() <= 15 && dy.abs() <= 15 && dx * dx + dy * dy <= 226));
    assert!(offsets.contains(&(0, -15)) && offsets.contains(&(15, 0)) && offsets.contains(&(0, 0)));
}
