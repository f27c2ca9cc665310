use quar_engine::features::descriptor::OrbDescriptor;
use quar_engine::features::matcher::{
    filter_by_distance, knn_match, match_cross_check, match_descriptors, sort_by_distance,
    BruteForceMatcher, Match, DEFAULT_MAX_DISTANCE,
};

fn make_descriptors(count: usize, seed: u8) -> Vec<OrbDescriptor> {
    (0..count)
        .map(|i| {
            let mut data = [0u8; 32];
            for j in 0..32 {
                data[j] = ((i + j) as u8).wrapping_add(seed).wrapping_mul(17);
            }
            OrbDescriptor { data }
        })
        .collect()
}

#[test]
fn test_match_creation() {
    let m = Match::new(5, 10, 42);
    assert_eq!(m.query_idx, 5);
    assert_eq!(m.train_idx, 10);
    assert_eq!(m.distance, 42);
}

#[test]
fn test_match_ordering() {
    let mut matches = vec![Match::new(0, 0, 50), Match::new(1, 1, 10), Match::new(2, 2, 30)];
    matches.sort();

    assert_eq!(matches[0].distance, 10);
    assert_eq!(matches[1].distance, 30);
    assert_eq!(matches[2].distance, 50);
}

#[test]
fn test_brute_force_self_match() {
    let descs = make_descriptors(10, 0);
    let matcher = BruteForceMatcher::with_max_distance(256);
    let matches = matcher.match_descriptors(&descs, &descs);

    assert_eq!(matches.len(), 10);
    for m in &matches {
        assert_eq!(m.query_idx, m.train_idx);
        assert_eq!(m.distance, 0);
    }
}

#[test]
fn test_brute_force_different_sets() {
    let query = make_descriptors(5, 0);
    let train = make_descriptors(10, 100);
    let matcher = BruteForceMatcher::with_max_distance(256);
    let matches = matcher.match_descriptors(&query, &train);

    assert!(!matches.is_empty());
    assert!(matches.len() <= 5);
}

#[test]
fn test_cross_check() {
    let query = make_descriptors(5, 0);
    let train = make_descriptors(5, 0);

    let matches = match_cross_check(&query, &train, 256);

    assert_eq!(matches.len(), 5);
    for m in &matches {
        assert_eq!(m.query_idx, m.train_idx);
    }
}

#[test]
fn test_knn_match() {
    let query = make_descriptors(3, 0);
    let train = make_descriptors(10, 50);

    let knn_results = knn_match(&query, &train, 3);

    assert_eq!(knn_results.len(), 3);
    for matches in &knn_results {
        assert_eq!(matches.len(), 3);
        for i in 0..2 {
            assert!(matches[i].distance <= matches[i + 1].distance);
        }
    }
}

#[test]
fn test_knn_k_larger_than_train() {
    let query = make_descriptors(2, 0);
    let train = make_descriptors(3, 0);

    let knn_results = knn_match(&query, &train, 10);

    assert_eq!(knn_results.len(), 2);
    for matches in &knn_results {
        assert_eq!(matches.len(), 3);
    }
}

#[test]
fn test_empty_inputs() {
    let empty: Vec<OrbDescriptor> = vec![];
    let some = make_descriptors(5, 0);

    assert!(match_descriptors(&empty, &some, 256).is_empty());
    assert!(match_descriptors(&some, &empty, 256).is_empty());
    assert!(match_cross_check(&empty, &some, 256).is_empty());
}

#[test]
fn test_filter_by_distance() {
    let matches = vec![Match::new(0, 0, 10), Match::new(1, 1, 50), Match::new(2, 2, 100)];

    let filtered = filter_by_distance(&matches, 50);
    assert_eq!(filtered.len(), 2);
    assert!(filtered.iter().all(|m| m.distance <= 50));
}

#[test]
fn test_max_distance_threshold() {
    let query = make_descriptors(5, 0);
    let train = make_descriptors(5, 200);

    let matches_high = match_descriptors(&query, &train, 256);
    assert!(!matches_high.is_empty());

    let matches_low = match_descriptors(&query, &train, 10);
    assert!(matches_low.len() <= matches_high.len());
}

#[test]
fn matcher_defaults() {
    assert_eq!(BruteForceMatcher::new().max_distance, DEFAULT_MAX_DISTANCE);
    let mut m = BruteForceMatcher::default();
    assert_eq!(m.max_distance, DEFAULT_MAX_DISTANCE);
    m.set_max_distance(7);
    assert_eq!(m.max_distance, 7);
}

#[test]
fn nearest_tie_goes_to_first_train_descriptor() {
    let q = vec![OrbDescriptor { data: [0u8; 32] }];
    let mut d1 = [0u8; 32];
    d1[0] = 1;
    let mut d2 = [0u8; 32];
    d2[5] = 0x10;
    let train = vec![OrbDescriptor { data: [0xFF; 32] }, OrbDescriptor { data: d1 }, OrbDescriptor { data: d2 }];
    let m = match_descriptors(&q, &train, 256);
    assert_eq!(m, vec![Match::new(0, 1, 1)]);
}

#[test]
fn threshold_drops_far_matches() {
    let q = vec![OrbDescriptor { data: [0u8; 32] }, OrbDescriptor { data: [0xFF; 32] }];
    let train = vec![OrbDescriptor { data: [0x01; 32] }];
    // distances: 32 and 224
    let m = match_descriptors(&q, &train, 32);
    assert_eq!(m, vec![Match::new(0, 0, 32)]);
    let m = match_descriptors(&q, &train, 31);
    assert!(m.is_empty());
}

#[test]
fn cross_check_drops_one_sided_matches() {
    // both queries prefer the single train descriptor; it prefers query 0
    let q = vec![OrbDescriptor { data: [0x01; 32] }, OrbDescriptor { data: [0x03; 32] }];
    let train = vec![OrbDescriptor { data: [0x00; 32] }];
    let fwd = match_descriptors(&q, &train, 256);
    assert_eq!(fwd.len(), 2);
    let cc = match_cross_check(&q, &train, 256);
    assert_eq!(cc, vec![Match::new(0, 0, 32)]);
}

#[test]
fn sort_by_distance_is_stable() {
    let mut ms = vec![
        Match::new(0, 9, 30),
        Match::new(1, 8, 10),
        Match::new(2, 7, 30),
        Match::new(3, 6, 10),
    ];
    sort_by_distance(&mut ms);
    let order: Vec<usize> = ms.iter().map(|m| m.query_idx).collect();
    assert_eq!(order, vec![1, 3, 0, 2]);
}

#[test]
fn knn_zero_k_gives_empty_lists() {
    let query = make_descriptors(2, 0);
    let train = make_descriptors(3, 0);
    let r = knn_match(&query, &train, 0);
    assert_eq!(r.len(), 2);
    assert!(r.iter().all(|l| l.is_empty()));
}

#[test]
fn knn_first_is_self_match() {
    let descs = make_descriptors(4, 9);
    let r = knn_match(&descs, &descs, 2);
    for (i, l) in r.iter().enumerate() {
        assert_eq!(l[0], Match::new(i, i, 0));
        assert_eq!(l[1].query_idx, i);
    }
}

use quar_engine::features::matcher::{match_distance_stats, two_nearest};

#[test]
fn two_nearest_reports_best_and_runner_up() {
    let q = OrbDescriptor { data: [0u8; 32] };
    let train = vec![
        OrbDescriptor { data: [0x03; 32] }, // 64
        OrbDescriptor { data: [0x01; 32] }, // 32
        OrbDescriptor { data: [0x07; 32] }, // 96
    ];
    assert_eq!(two_nearest(&q, &train), (1, 32, 64));
    // a tie keeps the first as best and the tie as second
    let tied = vec![OrbDescriptor { data: [0x01; 32] }, OrbDescriptor { data: [0x02; 32] }];
    assert_eq!(two_nearest(&q, &tied), (0, 32, 32));
    // a single train descriptor has no runner-up
    assert_eq!(two_nearest(&q, &train[..1]), (0, 64, u32::MAX));
}

#[test]
fn match_distance_statistics() {
    let ms = vec![
        Match::new(0, 0, 50),
        Match::new(1, 1, 10),
        Match::new(2, 2, 40),
        Match::new(3, 3, 20),
        Match::new(4, 4, 30),
    ];
    assert_eq!(match_distance_stats(&ms), (10, 50, 30, 150));
    assert_eq!(match_distance_stats(&ms[..2]), (10, 50, 50, 60));
}

#[test]
fn matches_compare_by_distance_alone() {
    let a = Match::new(0, 7, 12);
    let b = Match::new(3, 1, 12);
    let c = Match::new(9, 9, 4);
    assert_eq!(a.cmp(&b), std::cmp::Ordering::Equal);
    assert_eq!(a.partial_cmp(&b), Some(std::cmp::Ordering::Equal));
    assert_ne!(a, b);
    assert_eq!(c.cmp(&a), std::cmp::Ordering::Less);
    assert!(a > c);
    let mut v = vec![a, c, b];
    v.sort();
    assert_eq!(v, vec![c, a, b]);
}
