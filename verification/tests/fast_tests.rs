use quar_engine::features::fast::{circle_offset, Corner, FastDetector};

#[test]
fn test_contiguous_arc_detection() {
    let detector = FastDetector::new(20);

    let flags1 = [true, true, true, true, true, true, true, true, true, false, false, false, false, false, false, false];
    assert!(detector.has_contiguous_arc(&flags1, 9));

    let flags2 = [true, true, true, true, false, false, false, false, false, false, false, false, true, true, true, true];
    assert!(!detector.has_contiguous_arc(&flags2, 9));

    let flags3 = [true, true, true, true, false, true, true, true, true, false, false, false, false, false, false, false];
    assert!(!detector.has_contiguous_arc(&flags3, 9));
}

#[test]
fn arc_wrapping_around_the_end() {
    let detector = FastDetector::new(20);
    // 5 at the start and 4 at the end: 9 contiguous across the wrap
    let flags = [true, true, true, true, true, false, false, false, false, false, false, false, true, true, true, true];
    assert!(detector.has_contiguous_arc(&flags, 9));
    assert!(!detector.has_contiguous_arc(&flags, 10));
    assert!(detector.has_contiguous_arc(&[true; 16], 16));
    assert!(!detector.has_contiguous_arc(&[false; 16], 1));
}

fn image_with_arc(center: u8, arc: u8, background: u8) -> Vec<u8> {
    let mut img = vec![background; 50 * 50];
    img[25 * 50 + 25] = center;
    for i in 0..9 {
        let (dx, dy) = circle_offset(i);
        let idx = ((25 + dy) * 50 + (25 + dx)) as usize;
        img[idx] = arc;
    }
    img
}

#[test]
fn uniform_image_has_no_corners() {
    let detector = FastDetector::new(20);
    let img = vec![128u8; 100 * 100];
    assert!(detector.detect_corners(&img, 100, 100).is_empty());
}

#[test]
fn arc_pattern_is_detected() {
    let detector = FastDetector::new(20);
    let img = image_with_arc(128, 200, 100);
    let corners = detector.detect_corners(&img, 50, 50);
    assert!(corners.iter().any(|c| c.x == 25 && c.y == 25));
}

#[test]
fn lower_threshold_finds_at_least_as_many() {
    let img = image_with_arc(100, 130, 100);
    let low = FastDetector::new(20).detect_corners(&img, 50, 50);
    let high = FastDetector::new(50).detect_corners(&img, 50, 50);
    assert!(low.len() >= high.len());
    assert!(high.is_empty());
    assert!(!low.is_empty());
}

#[test]
fn single_bright_dot_is_one_corner_with_exact_score() {
    let mut img = vec![0u8; 20 * 20];
    img[10 * 20 + 10] = 255;
    let corners = FastDetector::new(20).detect_corners(&img, 20, 20);
    assert_eq!(corners, vec![Corner { x: 10, y: 10, score_sum: 16 * 255 }]);
}

#[test]
fn small_images_have_no_corners_and_border_is_skipped() {
    let detector = FastDetector::new(20);
    assert!(detector.detect_corners(&vec![0u8; 36], 6, 6).is_empty());
    let img = vec![128u8; 100];
    for c in detector.detect_corners(&img, 10, 10) {
        assert!(c.x >= 3 && c.x < 7 && c.y >= 3 && c.y < 7);
    }
}

#[test]
fn quick_and_full_tests_on_a_dot() {
    let mut img = vec![0u8; 20 * 20];
    img[10 * 20 + 10] = 255;
    let d = FastDetector::new(20);
    assert!(d.quick_reject_test(&img, 20, 10, 10));
    assert_eq!(d.full_fast9_test(&img, 20, 10, 10), Some(4080));
    assert!(!d.quick_reject_test(&img, 20, 5, 5));
    assert_eq!(d.full_fast9_test(&img, 20, 5, 5), None);
}

#[test]
fn circle_offsets_form_the_ring() {
    assert_eq!(circle_offset(0), (0, -3));
    assert_eq!(circle_offset(4), (3, 0));
    assert_eq!(circle_offset(8), (0, 3));
    assert_eq!(circle_offset(12), (-3, 0));
    for i in 0..16 {
        let (dx, dy) = circle_offset(i);
        let r2 = dx * dx + dy * dy;
        assert!(r2 >= 8 && r2 <= 10);
    }
}

use quar_engine::features::nms::{
    adaptive_non_maximum_suppression, non_maximum_suppression, non_maximum_suppression_grid,
};

fn c(x: u32, y: u32, s: u32) -> Corner {
    Corner { x, y, score_sum: s }
}

#[test]
fn nms_empty_and_zero_radius_return_input() {
    assert!(non_maximum_suppression(&[], 3).is_empty());
    let pts = vec![c(0, 0, 1), c(1, 0, 5)];
    assert_eq!(non_maximum_suppression(&pts, 0), pts);
}

#[test]
fn nms_keeps_strongest_and_suppresses_neighbours() {
    let pts = vec![c(10, 10, 100), c(11, 10, 200), c(30, 30, 50), c(12, 12, 150)];
    let kept = non_maximum_suppression(&pts, 3);
    // strongest first; (10,10) and (12,12) lie within 3 of (11,10)
    assert_eq!(kept, vec![c(11, 10, 200), c(30, 30, 50)]);
}

#[test]
fn nms_equal_scores_keep_input_order() {
    let pts = vec![c(0, 0, 7), c(100, 0, 7), c(1, 0, 7)];
    let kept = non_maximum_suppression(&pts, 2);
    assert_eq!(kept, vec![c(0, 0, 7), c(100, 0, 7)]);
}

#[test]
fn nms_suppressed_points_do_not_suppress() {
    // b is suppressed by a; c is within radius of b but not of a
    let a = c(0, 0, 30);
    let b = c(3, 0, 20);
    let d = c(6, 0, 10);
    let kept = non_maximum_suppression(&[d, b, a], 3);
    assert_eq!(kept, vec![a, d]);
}

#[test]
fn nms_radius_is_inclusive() {
    let kept = non_maximum_suppression(&[c(0, 0, 2), c(3, 4, 1)], 5);
    assert_eq!(kept, vec![c(0, 0, 2)]);
    let kept = non_maximum_suppression(&[c(0, 0, 2), c(3, 4, 1)], 4);
    assert_eq!(kept.len(), 2);
}

#[test]
fn grid_nms_keeps_best_per_cell_in_cell_order() {
    let pts = vec![
        c(1, 1, 5),
        c(15, 2, 9),
        c(3, 3, 8),
        c(2, 2, 8),
        c(19, 19, 1),
    ];
    // 20x20 image, cells of 10: four cells
    let kept = non_maximum_suppression_grid(&pts, 20, 20, 10);
    assert_eq!(kept, vec![c(3, 3, 8), c(15, 2, 9), c(19, 19, 1)]);
}

#[test]
fn grid_nms_clamps_points_past_the_edge() {
    // width 15 with cells of 10: two columns; x = 25 counts in the last one
    let pts = vec![c(25, 0, 4), c(12, 0, 3)];
    let kept = non_maximum_suppression_grid(&pts, 15, 5, 10);
    assert_eq!(kept, vec![c(25, 0, 4)]);
    assert_eq!(non_maximum_suppression_grid(&pts, 15, 5, 0), pts);
}

#[test]
fn anms_prefers_isolated_corners() {
    let pts = vec![c(0, 0, 100), c(1, 0, 90), c(50, 50, 10), c(2, 0, 80)];
    // radii: strongest u32::MAX, (1,0): 1, (2,0): 1, (50,50): 2*50^2
    let kept = adaptive_non_maximum_suppression(&pts, 2);
    assert_eq!(kept, vec![c(0, 0, 100), c(50, 50, 10)]);
    assert_eq!(adaptive_non_maximum_suppression(&pts, 4), pts);
    assert_eq!(adaptive_non_maximum_suppression(&pts, 0), vec![]);
}

#[test]
fn images_with_fewer_than_seven_rows_have_no_corners_whatever_their_width() {
    let detector = FastDetector::new(20);
    let corners = detector.detect_corners(&[], u32::MAX, 6);
    assert!(corners.is_empty());
    let corners = detector.detect_corners(&[0u8; 36], 6, u32::MAX);
    assert!(corners.is_empty());
}
