use quar_engine::features::descriptor::OrbDescriptor;
use quar_engine::loop_closure::bow::FeatureVector;
use quar_engine::loop_closure::loop_closing::RecentKeyFrames;
use quar_engine::loop_closure::vocabulary::{VocabConfig, Vocabulary};

fn desc(seed: u8) -> OrbDescriptor {
    let mut data = [0u8; 32];
    for j in 0..32 {
        data[j] = (j as u8).wrapping_mul(31).wrapping_add(seed).wrapping_mul(13);
    }
    OrbDescriptor { data }
}

#[test]
fn default_vocabulary() {
    let cfg = VocabConfig::default();
    assert_eq!(cfg.num_words, 1024);
    assert_eq!(cfg.num_projections, 10);
    let v = Vocabulary::with_defaults();
    assert_eq!(v.size(), 1024);
    assert_eq!(v.num_images(), 0);
    assert_eq!(v.image_count(5), 0);
}

#[test]
fn zero_descriptor_maps_to_word_zero() {
    let v = Vocabulary::with_defaults();
    assert_eq!(v.transform(&OrbDescriptor::new()), 0);
}

#[test]
fn transform_is_deterministic_and_in_range() {
    let v1 = Vocabulary::with_defaults();
    let v2 = Vocabulary::new(&VocabConfig { num_words: 1024, num_projections: 10 });
    for s in 0..40u8 {
        let d = desc(s);
        let w = v1.transform(&d);
        assert!(w < 1024);
        assert_eq!(w, v1.transform(&d));
        assert_eq!(w, v2.transform(&d));
    }
}

#[test]
fn transform_batch_matches_transform() {
    let v = Vocabulary::new(&VocabConfig { num_words: 100, num_projections: 4 });
    let ds: Vec<OrbDescriptor> = (0..10u8).map(desc).collect();
    let ws = v.transform_batch(&ds);
    assert_eq!(ws.len(), 10);
    for (d, w) in ds.iter().zip(ws.iter()) {
        assert_eq!(v.transform(d), *w);
        assert!(*w < 100);
    }
}

#[test]
fn record_image_counts_each_word_once() {
    let mut v = Vocabulary::new(&VocabConfig { num_words: 8, num_projections: 2 });
    v.record_image(&[1, 3, 3, 100]);
    v.record_image(&[3]);
    assert_eq!(v.num_images(), 2);
    assert_eq!(v.image_count(1), 1);
    assert_eq!(v.image_count(3), 2);
    assert_eq!(v.image_count(0), 0);
    assert_eq!(v.image_count(100), 0);
}

#[test]
fn feature_vector_groups_by_word() {
    let v = Vocabulary::with_defaults();
    let d = desc(7);
    let ds = vec![d, d, d];
    let fv = FeatureVector::from_descriptors(&ds, &v);
    let w = v.transform(&d);
    assert_eq!(fv.word_ids(), vec![w]);
    assert_eq!(fv.features_for_word(w), Some(&vec![0, 1, 2]));
    let pairs = fv.find_matches(&fv);
    assert_eq!(pairs.len(), 9);
    assert_eq!(pairs[0], (0, 0));
    assert_eq!(pairs[8], (2, 2));
}

#[test]
fn feature_vector_words_in_first_appearance_order() {
    let v = Vocabulary::with_defaults();
    let ds: Vec<OrbDescriptor> = (0..20u8).map(desc).collect();
    let fv = FeatureVector::from_descriptors(&ds, &v);
    let mut expected: Vec<usize> = Vec::new();
    for d in &ds {
        let w = v.transform(d);
        if !expected.contains(&w) {
            expected.push(w);
        }
    }
    assert_eq!(fv.word_ids(), expected);
    let total: usize = expected.iter().map(|w| fv.features_for_word(*w).unwrap().len()).sum();
    assert_eq!(total, 20);
}

#[test]
fn empty_feature_vector_has_no_matches() {
    let v = Vocabulary::with_defaults();
    let empty = FeatureVector::new();
    assert!(empty.word_ids().is_empty());
    assert!(empty.features_for_word(0).is_none());
    let fv = FeatureVector::from_descriptors(&[desc(1)], &v);
    assert!(empty.find_matches(&fv).is_empty());
    assert!(fv.find_matches(&empty).is_empty());
}

use quar_engine::loop_closure::inverted_index::InvertedIndex;

#[test]
fn inverted_index_add_get_remove() {
    let mut idx = InvertedIndex::new();
    assert!(idx.get(3).is_none());
    idx.add(7, &[3, 5]);
    idx.add(9, &[5, 8]);
    assert_eq!(idx.get(3), Some(&vec![7]));
    assert_eq!(idx.get(5), Some(&vec![7, 9]));
    assert_eq!(idx.get(8), Some(&vec![9]));
    idx.remove(7, &[3, 5]);
    assert_eq!(idx.get(3), Some(&vec![]));
    assert_eq!(idx.get(5), Some(&vec![9]));
    // words not listed are left alone
    idx.remove(9, &[5]);
    assert_eq!(idx.get(8), Some(&vec![9]));
    assert_eq!(idx.get(5), Some(&vec![]));
}

#[test]
fn inverted_index_remove_undoes_add() {
    let mut idx = InvertedIndex::new();
    idx.add(1, &[2, 4]);
    idx.add(2, &[4, 6, 6]);
    assert_eq!(idx.get(6), Some(&vec![2, 2]));
    idx.remove(2, &[4, 6, 6]);
    assert_eq!(idx.get(2), Some(&vec![1]));
    assert_eq!(idx.get(4), Some(&vec![1]));
    assert_eq!(idx.get(6), Some(&vec![]));
}

#[test]
fn recent_window_keeps_the_last_keyframes() {
    let mut w = RecentKeyFrames::new(3);
    assert_eq!(w.len(), 0);
    for id in 1..=5u64 {
        w.push(id);
    }
    assert_eq!(w.to_vec(), vec![3, 4, 5]);
    assert!(w.contains(4));
    assert!(!w.contains(2));
    w.push(9);
    assert_eq!(w.to_vec(), vec![4, 5, 9]);

    let mut none = RecentKeyFrames::new(0);
    none.push(1);
    assert_eq!(none.len(), 0);
    assert!(!none.contains(1));
}

#[test]
fn inverted_index_candidates_skip_excluded_and_repeats() {
    let mut index = InvertedIndex::new();
    index.add(1, &[3, 4]);
    index.add(2, &[4]);
    index.add(3, &[5]);
    index.add(4, &[3]);
    // words 4 and 3: keyframes 1, 2 (from word 4), then 4 (from word 3), once each
    assert_eq!(index.candidates(&[4, 3], &[]), vec![1, 2, 4]);
    assert_eq!(index.candidates(&[4, 3], &[2]), vec![1, 4]);
    assert_eq!(index.candidates(&[9], &[]), Vec::<u64>::new());
    assert_eq!(index.candidates(&[5, 5], &[]), vec![3]);
}

#[test]
fn feature_vector_of_no_descriptors_is_empty_for_any_vocabulary() {
    let empty_vocab = Vocabulary::new(&VocabConfig { num_words: 0, num_projections: 4 });
    let fv = FeatureVector::from_descriptors(&[], &empty_vocab);
    assert_eq!(fv.word_ids(), Vec::<usize>::new());
    assert!(fv.features_for_word(0).is_none());
}

#[test]
fn batch_transform_of_nothing_needs_no_words() {
    let empty_vocab = Vocabulary::new(&VocabConfig { num_words: 0, num_projections: 4 });
    assert_eq!(empty_vocab.transform_batch(&[]), Vec::<usize>::new());
}
