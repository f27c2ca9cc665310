use quar_engine::adaptive::{QualityController, QualityLevel, QualitySettings};

#[test]
fn quality_level_indices() {
    assert_eq!(QualityLevel::High.index(), 0);
    assert_eq!(QualityLevel::Minimal.index(), 3);
    assert_eq!(QualityLevel::from_index(2), QualityLevel::Low);
    assert_eq!(QualityLevel::from_index(9), QualityLevel::Minimal);
    assert_eq!(QualityLevel::default(), QualityLevel::High);
}

#[test]
fn settings_per_level() {
    let high = QualitySettings::for_level(QualityLevel::High);
    assert_eq!(high.max_features, 200);
    assert_eq!(high.fast_threshold, 20);
    let minimal = QualitySettings::for_level(QualityLevel::Minimal);
    assert_eq!(minimal.max_features, 50);
    assert_eq!(minimal.frame_skip, 2);
    assert_eq!(QualitySettings::default(), high);
}

#[test]
fn lower_levels_are_cheaper() {
    let levels = [QualityLevel::High, QualityLevel::Medium, QualityLevel::Low, QualityLevel::Minimal];
    for w in levels.windows(2) {
        let a = QualitySettings::for_level(w[0]);
        let b = QualitySettings::for_level(w[1]);
        assert!(b.max_features < a.max_features);
        assert!(b.window_size < a.window_size);
        assert!(b.fast_threshold > a.fast_threshold);
    }
}

#[test]
fn degrade_then_improve_returns_to_level() {
    let mut c = QualityController::new();
    assert_eq!(c.quality_level(), QualityLevel::High);
    assert!(!c.is_degraded());
    assert!(!c.improve_quality());
    assert!(c.degrade_quality());
    assert_eq!(c.quality_level(), QualityLevel::Medium);
    assert!(c.is_degraded());
    assert_eq!(*c.settings(), QualitySettings::for_level(QualityLevel::Medium));
    assert!(c.improve_quality());
    assert_eq!(c.quality_level(), QualityLevel::High);
}

#[test]
fn degrade_stops_at_minimal() {
    let mut c = QualityController::new();
    assert!(c.degrade_quality());
    assert!(c.degrade_quality());
    assert!(c.degrade_quality());
    assert!(!c.degrade_quality());
    assert_eq!(c.quality_level(), QualityLevel::Minimal);
}

#[test]
fn counting_frames_and_adjustment_window() {
    let mut c = QualityController::new();
    assert!(!c.count_frame(true, true, 3));
    assert!(!c.count_frame(false, true, 3));
    assert!(c.count_frame(true, true, 3));
    assert!(!c.count_frame(false, true, 3));
    assert_eq!(c.total_frames(), 4);
    assert_eq!(c.slow_frames(), 2);
    // disabled: never adjusts
    assert!(!c.count_frame(false, false, 1));
    c.reset_stats();
    assert_eq!(c.total_frames(), 0);
    assert_eq!(c.slow_frames(), 0);
}

#[test]
fn try_adjust_quality_decisions() {
    let mut c = QualityController::new();
    // under budget at the top: nothing to do
    assert!(!c.try_adjust_quality(false, true));
    // over budget: degrade
    assert!(c.try_adjust_quality(true, false));
    assert_eq!(c.quality_level(), QualityLevel::Medium);
    // neither: keep
    assert!(!c.try_adjust_quality(false, false));
    // under budget while degraded: improve
    assert!(c.try_adjust_quality(false, true));
    assert_eq!(c.quality_level(), QualityLevel::High);
    c.set_quality_level(QualityLevel::Minimal);
    assert!(!c.try_adjust_quality(true, false));
    assert_eq!(c.quality_level(), QualityLevel::Minimal);
}

#[test]
fn frames_since_adjustment_restarts() {
    let mut c = QualityController::new();
    assert_eq!(c.frames_since_adjustment(), 0);
    c.count_frame(false, true, 2);
    assert_eq!(c.frames_since_adjustment(), 1);
    assert!(c.count_frame(false, true, 2));
    assert_eq!(c.frames_since_adjustment(), 0);
}
