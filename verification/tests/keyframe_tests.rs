use quar_engine::mapping::keyframe_selection::{KeyFrameDecision, KeyFrameThresholds};
use quar_engine::optimization::TerminationReason;

#[test]
fn keyframe_decisions_that_create() {
    assert!(!KeyFrameDecision::TooSoon.should_create());
    assert!(!KeyFrameDecision::InsufficientMotion.should_create());
    assert!(KeyFrameDecision::Timeout.should_create());
    assert!(KeyFrameDecision::LowTrackingCount.should_create());
    assert!(KeyFrameDecision::LowTrackingRatio.should_create());
    assert!(KeyFrameDecision::SufficientTranslation.should_create());
    assert!(KeyFrameDecision::SufficientParallax.should_create());
}

#[test]
fn termination_reasons_compare() {
    assert_ne!(TerminationReason::CostConverged, TerminationReason::MaxIterations);
    assert_eq!(TerminationReason::LambdaExceeded, TerminationReason::LambdaExceeded);
}

/// The default selector's floating point tests, for a current pose with the
/// given translation and identity rotation against a keyframe at the origin
/// with identity rotation: (low tracked ratio, enough translation, enough parallax).
fn default_tests(tracked_points: usize, initial_points: usize, translation: [f32; 3]) -> (bool, bool, bool) {
    let min_tracked_ratio: f32 = 0.7;
    let min_translation: f32 = 0.02;
    let min_parallax_degrees: f32 = 1.0;
    let low_ratio = initial_points > 0 && (tracked_points as f32 / initial_points as f32) < min_tracked_ratio;
    let t = translation;
    let dist = ((t[0] as f64).powi(2) + (t[1] as f64).powi(2) + (t[2] as f64).powi(2)).sqrt() as f32;
    let q1 = [0.0f32, 0.0, 0.0, 1.0];
    let q2 = [0.0f32, 0.0, 0.0, 1.0];
    let dot = (q1[0] * q2[0] + q1[1] * q2[1] + q1[2] * q2[2] + q1[3] * q2[3]).abs();
    let parallax = (2.0 * dot.clamp(-1.0, 1.0).acos()).to_degrees();
    (low_ratio, dist > min_translation, parallax > min_parallax_degrees)
}

fn decide_default(tracked_points: usize, initial_points: usize, frames: u32, translation: [f32; 3]) -> KeyFrameDecision {
    let (r, t, p) = default_tests(tracked_points, initial_points, translation);
    KeyFrameThresholds::new().decide(tracked_points, frames, r, t, p)
}

#[test]
fn test_selector_default() {
    let selector = KeyFrameThresholds::new();
    assert_eq!(selector.min_frames_since_last, 10);
    assert_eq!(selector.max_frames_since_last, 60);
}

#[test]
fn test_too_soon() {
    // Only 5 frames passed - should not create keyframe
    let decision = decide_default(100, 100, 5, [0.0, 0.0, 0.0]);
    assert_eq!(decision, KeyFrameDecision::TooSoon);
    assert!(!decision.should_create());
}

#[test]
fn test_timeout() {
    // 60 frames passed - force keyframe
    let decision = decide_default(100, 100, 60, [0.0, 0.0, 0.0]);
    assert_eq!(decision, KeyFrameDecision::Timeout);
    assert!(decision.should_create());
}

#[test]
fn test_low_tracking_count() {
    // Only 20 tracked points
    let decision = decide_default(20, 100, 15, [0.0, 0.0, 0.0]);
    assert_eq!(decision, KeyFrameDecision::LowTrackingCount);
    assert!(decision.should_create());
}

#[test]
fn test_low_tracking_ratio() {
    // 60% tracking ratio (below 70% threshold)
    let decision = decide_default(60, 100, 15, [0.0, 0.0, 0.0]);
    assert_eq!(decision, KeyFrameDecision::LowTrackingRatio);
    assert!(decision.should_create());
}

#[test]
fn test_sufficient_translation() {
    // 10cm translation
    let decision = decide_default(100, 100, 15, [0.1, 0.0, 0.0]);
    assert_eq!(decision, KeyFrameDecision::SufficientTranslation);
    assert!(decision.should_create());
}

#[test]
fn test_insufficient_motion() {
    // Good tracking, small motion
    let decision = decide_default(100, 100, 15, [0.001, 0.0, 0.0]);
    assert_eq!(decision, KeyFrameDecision::InsufficientMotion);
    assert!(!decision.should_create());
}

#[test]
fn test_need_new_keyframe() {
    let selector = KeyFrameThresholds::new();
    let (r, t, p) = default_tests(100, 100, [0.0, 0.0, 0.0]);
    // Should need keyframe after timeout
    assert!(selector.need_new_keyframe(100, 60, r, t, p));
    // Should not need keyframe when too soon
    assert!(!selector.need_new_keyframe(100, 5, r, t, p));
}

#[test]
fn selector_presets_and_checks() {
    let fast = KeyFrameThresholds::fast_motion();
    assert_eq!((fast.min_frames_since_last, fast.max_frames_since_last, fast.min_tracked_points), (5, 30, 20));
    let slow = KeyFrameThresholds::slow_motion();
    assert_eq!((slow.min_frames_since_last, slow.max_frames_since_last, slow.min_tracked_points), (20, 120, 40));
    let t = KeyFrameThresholds::new();
    assert!(t.timeout_check(60));
    assert!(!t.timeout_check(59));
    assert!(t.tracking_quality_check(29, false));
    assert!(!t.tracking_quality_check(30, false));
    assert!(t.tracking_quality_check(30, true));
    // parallax alone creates a keyframe; with no motion at all it does not
    assert_eq!(t.decide(100, 15, false, false, true), KeyFrameDecision::SufficientParallax);
    assert!(t.need_new_keyframe(100, 15, false, false, true));
    assert!(!t.need_new_keyframe(100, 15, false, false, false));
    // degraded tracking forces a keyframe once enough frames have passed
    assert!(t.need_new_keyframe(20, 15, false, false, false));
    assert!(t.need_new_keyframe(100, 15, true, false, false));
    assert!(!t.need_new_keyframe(20, 9, true, false, false));
}
