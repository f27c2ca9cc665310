use quar_engine::features::descriptor::{fits_descriptor_patch, orb_pattern, popcount_u8, OrbDescriptor};

#[test]
fn test_descriptor_creation() {
    let desc = OrbDescriptor::new();
    assert_eq!(desc.data, [0u8; 32]);
}

#[test]
fn test_descriptor_distance() {
    let desc1 = OrbDescriptor { data: [0xFF; 32] };
    let desc2 = OrbDescriptor { data: [0x00; 32] };

    // All bits differ
    assert_eq!(desc1.distance(&desc2), 256);

    // Same descriptor
    assert_eq!(desc1.distance(&desc1), 0);
}

#[test]
fn test_descriptor_half_distance() {
    let desc1 = OrbDescriptor { data: [0xAA; 32] };
    let desc2 = OrbDescriptor { data: [0x55; 32] };

    // All bits differ (alternating pattern)
    assert_eq!(desc1.distance(&desc2), 256);

    // Same pattern should match
    let desc3 = OrbDescriptor { data: [0xAA; 32] };
    assert_eq!(desc1.distance(&desc3), 0);
}

#[test]
fn test_descriptor_is_similar() {
    let desc1 = OrbDescriptor { data: [0xFF; 32] };
    let desc2 = OrbDescriptor { data: [0xFE; 32] };

    assert!(desc1.is_similar(&desc2, 50));
    assert!(!desc1.is_similar(&desc2, 20));
}

#[test]
fn popcount_of_bytes() {
    assert_eq!(popcount_u8(0), 0);
    assert_eq!(popcount_u8(0xFF), 8);
    assert_eq!(popcount_u8(0b1011_0001), 4);
}

#[test]
fn distance_is_symmetric_and_bounded() {
    let mut a = [0u8; 32];
    let mut b = [0u8; 32];
    for i in 0..32 {
        a[i] = (i as u8).wrapping_mul(37);
        b[i] = (i as u8).wrapping_mul(11).wrapping_add(3);
    }
    let da = OrbDescriptor { data: a };
    let db = OrbDescriptor { data: b };
    assert_eq!(da.distance(&db), db.distance(&da));
    assert!(da.distance(&db) <= 256);
}

#[test]
fn distance_counts_single_bit() {
    let a = OrbDescriptor { data: [0u8; 32] };
    let mut d = [0u8; 32];
    d[31] = 0x80;
    let b = OrbDescriptor { data: d };
    assert_eq!(a.distance(&b), 1);
    // the threshold is inclusive
    assert!(a.is_similar(&b, 1));
    assert!(!a.is_similar(&b, 0));
}

#[test]
fn distance_triangle_inequality() {
    let a = OrbDescriptor { data: [0x0F; 32] };
    let b = OrbDescriptor { data: [0x3C; 32] };
    let c = OrbDescriptor { data: [0xF0; 32] };
    assert!(a.distance(&c) <= a.distance(&b) + b.distance(&c));
    assert_eq!(a.distance(&c), 256);
    assert_eq!(a.distance(&b), 128);
}

#[test]
fn descriptor_bits_from_point_pairs() {
    let image = vec![10u8, 20];
    let pairs: Vec<(usize, usize, usize, usize)> = (0..256)
        .map(|i| if i % 2 == 0 { (0, 0, 1, 0) } else { (1, 0, 0, 0) })
        .collect();
    let d = OrbDescriptor::from_point_pairs(&image, 2, &pairs);
    assert_eq!(d.data, [0x55u8; 32]);
    // equal intensities never set a bit
    let same: Vec<(usize, usize, usize, usize)> = (0..256).map(|_| (0, 0, 0, 0)).collect();
    assert_eq!(OrbDescriptor::from_point_pairs(&image, 2, &same).data, [0u8; 32]);
}

#[test]
fn test_orb_pattern_validity() {
    // Ensure all pattern points are within bounds
    for &(x1, y1, x2, y2) in &orb_pattern() {
        assert!(x1.abs() <= 13, "x1 out of bounds: {}", x1);
        assert!(y1.abs() <= 13, "y1 out of bounds: {}", y1);
        assert!(x2.abs() <= 13, "x2 out of bounds: {}", x2);
        assert!(y2.abs() <= 13, "y2 out of bounds: {}", y2);
    }
}

#[test]
fn test_pattern_count() {
    assert_eq!(orb_pattern().len(), 256);
}

#[test]
fn descriptor_patch_needs_nineteen_pixels_of_margin() {
    assert!(fits_descriptor_patch(40, 40, 19, 20));
    assert!(fits_descriptor_patch(40, 40, 20, 19));
    assert!(!fits_descriptor_patch(40, 40, 18, 20));
    assert!(!fits_descriptor_patch(40, 40, 21, 20));
    assert!(!fits_descriptor_patch(40, 40, 20, 21));
    assert!(!fits_descriptor_patch(100, 100, 5, 5));
    assert!(fits_descriptor_patch(100, 100, 50, 50));
    assert!(!fits_descriptor_patch(0, 0, 0, 0));
    assert!(!fits_descriptor_patch(10, 10, usize::MAX, 5));
}
