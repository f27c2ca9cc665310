use quar_engine::plane::plane::PlaneType;
use quar_engine::plane::ransac::SimpleRng;

#[test]
fn test_plane_type_checks() {
    assert!(PlaneType::HorizontalUp.is_horizontal());
    assert!(PlaneType::HorizontalDown.is_horizontal());
    assert!(!PlaneType::Vertical.is_horizontal());
    assert!(!PlaneType::Arbitrary.is_horizontal());

    assert!(PlaneType::Vertical.is_vertical());
    assert!(!PlaneType::HorizontalUp.is_vertical());
}

#[test]
fn no_plane_type_is_both() {
    for t in [PlaneType::HorizontalUp, PlaneType::HorizontalDown, PlaneType::Vertical, PlaneType::Arbitrary] {
        assert!(!(t.is_horizontal() && t.is_vertical()));
    }
    assert!(!PlaneType::Arbitrary.is_vertical());
}

#[test]
fn rng_sequence_is_exact() {
    let mut rng = SimpleRng::new(42);
    let s1 = 42u64.wrapping_mul(6364136223846793005).wrapping_add(1);
    let r1 = rng.next(1000);
    assert_eq!(rng.seed, s1);
    assert_eq!(r1, ((s1 >> 33) as usize) % 1000);
    let s2 = s1.wrapping_mul(6364136223846793005).wrapping_add(1);
    let r2 = rng.next(7);
    assert_eq!(rng.seed, s2);
    assert_eq!(r2, ((s2 >> 33) as usize) % 7);
    assert!(r2 < 7);
}

#[test]
fn rng_same_seed_same_values() {
    let mut a = SimpleRng::new(123);
    let mut b = SimpleRng::new(123);
    for n in 1..50 {
        assert_eq!(a.next(n), b.next(n));
    }
    assert_eq!(SimpleRng::new(0).next(1), 0);
}

use quar_engine::plane::ransac::sample_three_indices;

#[test]
fn three_indices_are_distinct_and_in_range() {
    let mut rng = SimpleRng::new(42);
    for n in 3..40 {
        let (a, b, c) = sample_three_indices(&mut rng, n);
        assert!(a < n && b < n && c < n);
        assert!(a != b && a != c && b != c);
    }
}

#[test]
fn three_indices_follow_the_generator() {
    let mut rng = SimpleRng::new(7);
    let mut shadow = SimpleRng::new(7);
    let v1 = shadow.next(3);
    let v2 = shadow.next(2);
    let v3 = shadow.next(1);
    assert_eq!(v3, 0);
    let (a, b, c) = sample_three_indices(&mut rng, 3);
    assert_eq!(a, v1);
    assert_eq!(b, if v2 >= v1 { v2 + 1 } else { v2 });
    // with three points the third index is the one left over
    assert_eq!(a + b + c, 3);
    assert_eq!(rng.seed, shadow.seed);
}
