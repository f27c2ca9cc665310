use quar_engine::features::descriptor::OrbDescriptor;
use quar_engine::mapping::map_point::MapPointTrack;

#[test]
fn map_point_observations() {
    let mut t = MapPointTrack::new(1, 5, OrbDescriptor { data: [3u8; 32] });
    assert_eq!(t.first_keyframe, 1);
    assert_eq!(t.matched_count, 1);
    assert_eq!(t.visible_count, 1);
    assert!(!t.bad);
    assert_eq!(t.descriptor.data, [3u8; 32]);
    assert_eq!(t.num_observations(), 1);
    assert!(t.is_observed_by(1));
    assert_eq!(t.get_observation(1), Some(5));
    t.add_observation(2, 7);
    t.add_observation(2, 8);
    assert_eq!(t.num_observations(), 2);
    assert_eq!(t.get_observation(2), Some(8));
    t.remove_observation(2);
    assert!(!t.is_observed_by(2));
    assert_eq!(t.get_observation(2), None);
    assert_eq!(t.num_observations(), 1);
}

#[test]
fn map_point_counters_and_culling() {
    let mut t = MapPointTrack::new(1, 0, OrbDescriptor { data: [0u8; 32] });
    // matched only once: few observations alone do not cull
    assert!(!t.cull_by_observations(3));
    t.increment_matched();
    t.increment_matched();
    t.increment_visible();
    assert_eq!(t.matched_count, 3);
    assert_eq!(t.visible_count, 2);
    assert!(t.cull_by_observations(3));
    assert!(!t.cull_by_observations(1));
    t.set_bad();
    assert!(t.cull_by_observations(0));
}

fn make_descriptor() -> OrbDescriptor {
    OrbDescriptor { data: [0u8; 32] }
}

#[test]
fn test_map_point_creation() {
    let mp = MapPointTrack::new(0, 5, make_descriptor());

    assert_eq!(mp.first_keyframe, 0);
    assert_eq!(mp.num_observations(), 1);
    assert!(mp.is_observed_by(0));
    assert!(!mp.bad);
}

#[test]
fn test_add_observation() {
    let mut mp = MapPointTrack::new(0, 0, make_descriptor());

    mp.add_observation(1, 10);
    mp.add_observation(2, 20);

    assert_eq!(mp.num_observations(), 3);
    assert_eq!(mp.get_observation(1), Some(10));
    assert_eq!(mp.get_observation(2), Some(20));
}

#[test]
fn test_remove_observation() {
    let mut mp = MapPointTrack::new(0, 0, make_descriptor());
    mp.add_observation(1, 10);

    mp.remove_observation(1);

    assert_eq!(mp.num_observations(), 1);
    assert!(!mp.is_observed_by(1));
}
