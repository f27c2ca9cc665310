use quar_engine::features::descriptor::OrbDescriptor;
use quar_engine::mapping::keyframe::KeyFrameLinks;
use quar_engine::mapping::map::MapGraph;
use quar_engine::mapping::map_point::MapPointTrack;

fn desc(v: u8) -> OrbDescriptor {
    OrbDescriptor { data: [v; 32] }
}

/// Links of a keyframe with `n` features, each with a descriptor.
fn links(n: usize) -> KeyFrameLinks {
    KeyFrameLinks::new(vec![Some(desc(0)); n])
}

type TestMap = MapGraph<f64, [f64; 3]>;

#[test]
fn test_keyframe_creation() {
    let kf = links(2);

    assert_eq!(kf.descriptors.len(), 2);
    assert_eq!(kf.num_mapped_features(), 0);
    assert_eq!(kf.map_points.len(), 2);
    assert!(!kf.bad);
    assert!(kf.parent.is_none());
}

#[test]
fn test_set_map_point() {
    let mut kf = links(2);

    kf.set_map_point(0, 100);
    kf.set_map_point(1, 200);

    assert_eq!(kf.num_mapped_features(), 2);
    assert_eq!(kf.get_map_points(), vec![100, 200]);
}

#[test]
fn test_covisibility() {
    let mut kf = links(0);

    kf.add_covisible(2, 10);
    kf.add_covisible(3, 5);
    kf.add_covisible(4, 15);

    let best = kf.get_best_covisible(2);
    assert_eq!(best, vec![4, 2]);
}

#[test]
fn test_spanning_tree() {
    let mut kf = links(0);

    kf.set_parent(0);
    kf.add_child(2);
    kf.add_child(3);

    assert_eq!(kf.parent, Some(0));
    assert_eq!(kf.children.len(), 2);

    kf.remove_child(2);
    assert_eq!(kf.children.len(), 1);
}

#[test]
fn keyframe_links_slots_and_descriptors() {
    let mut kf = KeyFrameLinks::new(vec![Some(desc(1)), None, Some(desc(3))]);
    assert_eq!(kf.get_descriptor(0), Some(desc(1)));
    assert_eq!(kf.get_descriptor(1), None);
    assert_eq!(kf.get_descriptor(7), None);
    assert_eq!(kf.get_descriptors(), vec![desc(1), desc(3)]);

    kf.set_map_point(0, 9);
    kf.set_map_point(2, 9);
    kf.set_map_point(5, 4); // past the features: ignored
    assert_eq!(kf.map_points, vec![Some(9), None, Some(9)]);
    kf.set_map_point(1, 4);
    kf.remove_map_point(9);
    assert_eq!(kf.map_points, vec![None, Some(4), None]);
    kf.clear_map_point(1);
    assert_eq!(kf.num_mapped_features(), 0);
}

#[test]
fn keyframe_links_covisibility_updates_and_ranking() {
    let mut kf = links(0);
    kf.update_covisibility(5, 3);
    kf.update_covisibility(6, 8);
    kf.update_covisibility(7, 1);
    kf.update_covisibility(5, 0); // zero removes
    assert!(!kf.covisible.contains_key(&5));
    assert_eq!(kf.get_covisible_keyframes(), vec![(6, 8), (7, 1)]);
    assert_eq!(kf.get_best_covisible(10), vec![6, 7]);
    assert_eq!(kf.get_best_covisible(0), Vec::<u64>::new());
    kf.add_child(3);
    kf.add_child(3);
    assert_eq!(kf.children, vec![3]);
    kf.set_bad();
    assert!(kf.bad);
}

#[test]
fn test_map_creation() {
    let map = TestMap::new();
    assert!(map.is_empty());
    assert_eq!(map.num_keyframes(), 0);
    assert_eq!(map.num_map_points(), 0);
}

#[test]
fn test_add_keyframe() {
    let mut map = TestMap::new();

    let id = map.add_keyframe(links(1), 0.0);
    assert_eq!(id, 0);
    assert_eq!(map.num_keyframes(), 1);
    assert!(map.get_keyframe(0).is_some());
}

#[test]
fn test_add_map_point() {
    let mut map = TestMap::new();
    let mp = MapPointTrack::new(0, 0, OrbDescriptor { data: [0u8; 32] });

    let id = map.add_map_point(mp, [1.0, 2.0, 3.0]);
    assert_eq!(id, 0);
    assert_eq!(map.num_map_points(), 1);
    assert!(map.get_map_point(0).is_some());
}

#[test]
fn test_create_map_point() {
    let mut map = TestMap::new();

    let kf1_id = map.add_keyframe(links(1), 0.0);
    let kf2_id = map.add_keyframe(links(1), 0.0);

    let mp_id = map.create_map_point([1.0, 0.0, 5.0], kf1_id, 0, kf2_id, 0);
    assert!(mp_id.is_some());

    let mp = map.get_map_point(mp_id.unwrap()).unwrap();
    assert_eq!(mp.0.num_observations(), 2);
    assert_eq!(mp.1, [1.0, 0.0, 5.0]);
}

#[test]
fn test_remove_keyframe() {
    let mut map = TestMap::new();
    let id = map.add_keyframe(links(0), 0.0);

    map.remove_keyframe(id);
    assert_eq!(map.num_keyframes(), 0);
}

#[test]
fn test_remove_map_point() {
    let mut map = TestMap::new();
    let kf_id = map.add_keyframe(links(1), 0.0);

    let mp = MapPointTrack::new(kf_id, 0, OrbDescriptor { data: [0u8; 32] });
    let mp_id = map.add_map_point(mp, [1.0, 2.0, 3.0]);

    // Link keyframe to map point
    map.keyframes.get_mut(&kf_id).unwrap().0.set_map_point(0, mp_id);

    map.remove_map_point(mp_id);
    assert_eq!(map.num_map_points(), 0);
    assert_eq!(map.get_keyframe(kf_id).unwrap().0.get_map_points().len(), 0);
}

#[test]
fn test_map_stats() {
    let mut map = TestMap::new();
    map.add_keyframe(links(0), 0.0);

    let mp = MapPointTrack::new(0, 0, OrbDescriptor { data: [0u8; 32] });
    map.add_map_point(mp, [0.0, 0.0, 0.0]);

    assert_eq!(map.num_keyframes(), 1);
    assert_eq!(map.num_map_points(), 1);
    assert_eq!(map.total_observations(), 1);
}

#[test]
fn create_map_point_needs_a_descriptor() {
    let mut map = TestMap::new();
    let a = map.add_keyframe(KeyFrameLinks::new(vec![None, Some(desc(7))]), 0.0);
    let b = map.add_keyframe(links(2), 1.0);

    // no descriptor at feature 0, no feature 5, no keyframe 9
    assert_eq!(map.create_map_point([0.0; 3], a, 0, b, 0), None);
    assert_eq!(map.create_map_point([0.0; 3], a, 5, b, 0), None);
    assert_eq!(map.create_map_point([0.0; 3], 9, 0, b, 0), None);
    assert_eq!(map.num_map_points(), 0);

    let id = map.create_map_point([0.0; 3], a, 1, b, 0).unwrap();
    assert_eq!(id, 0);
    let (track, _) = map.get_map_point(id).unwrap();
    assert_eq!(track.descriptor, desc(7));
    assert_eq!(track.get_observation(a), Some(1));
    assert_eq!(track.get_observation(b), Some(0));
    assert_eq!(map.get_keyframe(a).unwrap().0.map_points, vec![None, Some(id)]);
    assert_eq!(map.get_keyframe(b).unwrap().0.map_points, vec![Some(id), None]);
}

#[test]
fn remove_map_point_clears_every_observer() {
    let mut map = TestMap::new();
    let a = map.add_keyframe(links(2), 0.0);
    let b = map.add_keyframe(links(2), 0.0);
    let p = map.create_map_point([0.0; 3], a, 0, b, 1).unwrap();
    let q = map.create_map_point([0.0; 3], a, 1, b, 0).unwrap();

    map.remove_map_point(p);
    assert!(map.get_map_point(p).is_none());
    assert_eq!(map.get_keyframe(a).unwrap().0.map_points, vec![None, Some(q)]);
    assert_eq!(map.get_keyframe(b).unwrap().0.map_points, vec![Some(q), None]);
    // removing an absent point changes nothing
    map.remove_map_point(p);
    assert_eq!(map.num_map_points(), 1);
}

#[test]
fn covisibility_is_recounted_both_ways() {
    let mut map = TestMap::new();
    let a = map.add_keyframe(links(3), 0.0);
    let b = map.add_keyframe(links(3), 0.0);
    let c = map.add_keyframe(links(3), 0.0);
    map.create_map_point([0.0; 3], a, 0, b, 0).unwrap();
    map.create_map_point([0.0; 3], a, 1, b, 1).unwrap();
    map.create_map_point([0.0; 3], a, 2, c, 0).unwrap();

    map.update_covisibility(a);
    let ka = &map.get_keyframe(a).unwrap().0;
    assert_eq!(ka.covisible.len(), 2);
    assert_eq!(ka.covisible[&b], 2);
    assert_eq!(ka.covisible[&c], 1);
    assert_eq!(map.get_keyframe(b).unwrap().0.covisible[&a], 2);
    assert_eq!(map.get_keyframe(c).unwrap().0.covisible[&a], 1);
    assert_eq!(ka.get_best_covisible(1), vec![b]);
}

#[test]
fn removing_a_keyframe_relinks_the_map() {
    let mut map = TestMap::new();
    let root = map.add_keyframe(links(1), 0.0);
    let mid = map.add_keyframe(links(2), 0.0);
    let leaf = map.add_keyframe(links(1), 0.0);
    map.keyframes.get_mut(&mid).unwrap().0.set_parent(root);
    map.keyframes.get_mut(&root).unwrap().0.add_child(mid);
    map.keyframes.get_mut(&leaf).unwrap().0.set_parent(mid);
    map.keyframes.get_mut(&mid).unwrap().0.add_child(leaf);
    let p = map.create_map_point([0.0; 3], mid, 0, leaf, 0).unwrap();
    let q = map.create_map_point([0.0; 3], root, 0, mid, 1).unwrap();
    map.update_covisibility(mid);
    assert!(map.get_keyframe(leaf).unwrap().0.covisible.contains_key(&mid));

    map.remove_keyframe(mid);
    assert_eq!(map.num_keyframes(), 2);
    assert!(map.get_keyframe(mid).is_none());
    // the leaf now hangs from the root
    assert_eq!(map.get_keyframe(leaf).unwrap().0.parent, Some(root));
    assert_eq!(map.get_keyframe(root).unwrap().0.children, vec![leaf]);
    // no one lists the removed keyframe any more
    assert!(!map.get_keyframe(leaf).unwrap().0.covisible.contains_key(&mid));
    assert!(!map.get_keyframe(root).unwrap().0.covisible.contains_key(&mid));
    assert!(!map.get_map_point(p).unwrap().0.is_observed_by(mid));
    assert!(!map.get_map_point(q).unwrap().0.is_observed_by(mid));
    assert!(map.get_map_point(p).unwrap().0.is_observed_by(leaf));
    // removing an absent keyframe changes nothing
    map.remove_keyframe(mid);
    assert_eq!(map.num_keyframes(), 2);
}

#[test]
fn ids_and_clear() {
    let mut map = TestMap::new();
    assert_eq!(map.last_keyframe_id(), None);
    assert!(map.get_last_keyframe().is_none());
    map.add_keyframe(links(0), 0.5);
    let second = map.add_keyframe(links(0), 1.5);
    assert_eq!(map.last_keyframe_id(), Some(second));
    assert_eq!(map.get_last_keyframe().unwrap().1, 1.5);
    let mut ids = map.get_keyframe_ids();
    ids.sort();
    assert_eq!(ids, vec![0, 1]);
    map.remove_keyframe(second);
    assert!(map.get_last_keyframe().is_none());
    assert_eq!(map.last_keyframe_id(), Some(second));
    map.clear();
    assert!(map.is_empty());
    assert_eq!(map.add_keyframe(links(0), 0.0), 0);
}

#[test]
fn total_observations_sums_every_point() {
    let mut map = TestMap::new();
    assert_eq!(map.total_observations(), 0);
    let a = map.add_keyframe(links(2), 0.0);
    let b = map.add_keyframe(links(2), 0.0);
    map.create_map_point([0.0; 3], a, 0, b, 0).unwrap();
    map.create_map_point([0.0; 3], a, 1, a, 1).unwrap();
    assert_eq!(map.total_observations(), 3);
}
