//! Adaptive quality levels and the decisions that move between them.
//!
//! Frame timing is measured outside; this module holds the quality level,
//! the settings derived from it and the frame counters, and decides how the
//! level changes when a frame is too slow or has headroom.

use vstd::prelude::*;

verus! {

/// Quality level for tracking, from highest to lowest.
#[derive(Debug, Clone, Copy, PartialEq, Eq, Structural)]
pub enum QualityLevel {
    /// Highest quality - all features enabled
    High,
    /// Medium quality - reduced features
    Medium,
    /// Low quality - minimal processing for weak devices
    Low,
    /// Minimal quality - emergency mode
    Minimal,
}

/// Position of a level: 0 for High up to 3 for Minimal.
pub open spec fn level_rank(l: QualityLevel) -> int {
    match l {
        QualityLevel::High => 0,
        QualityLevel::Medium => 1,
        QualityLevel::Low => 2,
        QualityLevel::Minimal => 3,
    }
}

/// The level one step lower in quality, if any.
pub open spec fn lower_level(l: QualityLevel) -> Option<QualityLevel> {
    match l {
        QualityLevel::High => Some(QualityLevel::Medium),
        QualityLevel::Medium => Some(QualityLevel::Low),
        QualityLevel::Low => Some(QualityLevel::Minimal),
        QualityLevel::Minimal => None,
    }
}

/// The level one step higher in quality, if any.
pub open spec fn higher_level(l: QualityLevel) -> Option<QualityLevel> {
    match l {
        QualityLevel::High => None,
        QualityLevel::Medium => Some(QualityLevel::High),
        QualityLevel::Low => Some(QualityLevel::Medium),
        QualityLevel::Minimal => Some(QualityLevel::Low),
    }
}

impl QualityLevel {
    /// The level's number: 0 for High, 1 for Medium, 2 for Low, 3 for Minimal.
    pub fn index(&self) -> (i: u32)
        ensures
            i == level_rank(*self),
    {
        match self {
            QualityLevel::High => 0,
            QualityLevel::Medium => 1,
            QualityLevel::Low => 2,
            QualityLevel::Minimal => 3,
        }
    }

    /// The level with the given number; 3 and above give Minimal.
    pub fn from_index(i: u32) -> (l: QualityLevel)
        ensures
            i <= 3 ==> level_rank(l) == i,
            i > 3 ==> l == QualityLevel::Minimal,
    {
        match i {
            0 => QualityLevel::High,
            1 => QualityLevel::Medium,
            2 => QualityLevel::Low,
            _ => QualityLevel::Minimal,
        }
    }
}

impl Default for QualityLevel {
    /// The highest level.
    fn default() -> (l: Self)
        ensures
            l == QualityLevel::High,
    {
        QualityLevel::High
    }
}

/// Current quality settings derived from the quality level.
#[derive(Debug, Clone, Copy, PartialEq, Eq, Structural)]
pub struct QualitySettings {
    /// Maximum features to track
    pub max_features: u32,
    /// Number of pyramid levels
    pub pyramid_levels: u32,
    /// Lucas-Kanade window size
    pub window_size: u32,
    /// FAST detection threshold
    pub fast_threshold: u8,
    /// Frame skip interval (1 = no skip, 2 = every other frame)
    pub frame_skip: u32,
    /// Enable pose smoothing
    pub pose_smoothing: bool,
}

/// The settings of each level.
pub open spec fn settings_for(l: QualityLevel) -> QualitySettings {
    match l {
        QualityLevel::High => QualitySettings {
            max_features: 200,
            pyramid_levels: 3,
            window_size: 21,
            fast_threshold: 20,
            frame_skip: 1,
            pose_smoothing: true,
        },
        QualityLevel::Medium => QualitySettings {
            max_features: 150,
            pyramid_levels: 3,
            window_size: 15,
            fast_threshold: 25,
            frame_skip: 1,
            pose_smoothing: true,
        },
        QualityLevel::Low => QualitySettings {
            max_features: 100,
            pyramid_levels: 2,
            window_size: 11,
            fast_threshold: 30,
            frame_skip: 1,
            pose_smoothing: true,
        },
        QualityLevel::Minimal => QualitySettings {
            max_features: 50,
            pyramid_levels: 2,
            window_size: 9,
            fast_threshold: 35,
            frame_skip: 2,
            pose_smoothing: true,
        },
    }
}

impl QualitySettings {
    /// Get the settings for a quality level.
    pub fn for_level(level: QualityLevel) -> (s: Self)
        ensures
            s == settings_for(level),
    {
        match level {
            QualityLevel::High => QualitySettings {
                max_features: 200,
                pyramid_levels: 3,
                window_size: 21,
                fast_threshold: 20,
                frame_skip: 1,
                pose_smoothing: true,
            },
            QualityLevel::Medium => QualitySettings {
                max_features: 150,
                pyramid_levels: 3,
                window_size: 15,
                fast_threshold: 25,
                frame_skip: 1,
                pose_smoothing: true,
            },
            QualityLevel::Low => QualitySettings {
                max_features: 100,
                pyramid_levels: 2,
                window_size: 11,
                fast_threshold: 30,
                frame_skip: 1,
                pose_smoothing: true,
            },
            QualityLevel::Minimal => QualitySettings {
                max_features: 50,
                pyramid_levels: 2,
                window_size: 9,
                fast_threshold: 35,
                frame_skip: 2,
                pose_smoothing: true,
            },
        }
    }
}

impl Default for QualitySettings {
    /// The settings of the highest level.
    fn default() -> (s: Self)
        ensures
            s == settings_for(QualityLevel::High),
    {
        Self::for_level(QualityLevel::High)
    }
}

/// Lowering the quality and raising it again gives back the level, and
/// likewise the other way round.
pub proof fn lemma_level_steps_invert(l: QualityLevel)
    ensures
        lower_level(l) matches Some(m) ==> higher_level(m) == Some(l),
        higher_level(l) matches Some(m) ==> lower_level(m) == Some(l),
{
}

/// Each lower level tracks fewer features, with a smaller or equal pyramid
/// and window, and a higher FAST threshold.
pub proof fn lemma_lower_level_is_cheaper(l: QualityLevel)
    ensures
        lower_level(l) matches Some(m) ==> {
            &&& settings_for(m).max_features < settings_for(l).max_features
            &&& settings_for(m).pyramid_levels <= settings_for(l).pyramid_levels
            &&& settings_for(m).window_size < settings_for(l).window_size
            &&& settings_for(m).fast_threshold > settings_for(l).fast_threshold
            &&& settings_for(m).frame_skip >= settings_for(l).frame_skip
        },
{
}

/// The integer state of the adaptive quality controller: the level, its
/// settings and the frame counters.
#[derive(Debug, Clone, Copy)]
pub struct QualityController {
    current_level: QualityLevel,
    current_settings: QualitySettings,
    frames_since_adjustment: u32,
    total_frames: u64,
    slow_frames: u64,
    is_degraded: bool,
}

impl QualityController {
    /// The settings are those of the level, and the controller counts as
    /// degraded exactly when it is below the highest level.
    #[verifier::type_invariant]
    closed spec fn wf(&self) -> bool {
        &&& self.current_settings == settings_for(self.current_level)
        &&& self.is_degraded == (self.current_level != QualityLevel::High)
        &&& self.slow_frames <= self.total_frames
    }

    /// Current level.
    pub closed spec fn level(&self) -> QualityLevel {
        self.current_level
    }

    /// Frames counted since the last adjustment opportunity.
    pub closed spec fn spec_frames_since_adjustment(&self) -> u32 {
        self.frames_since_adjustment
    }

    /// Frames counted.
    pub closed spec fn spec_total_frames(&self) -> u64 {
        self.total_frames
    }

    /// Frames counted as slow.
    pub closed spec fn spec_slow_frames(&self) -> u64 {
        self.slow_frames
    }

    /// Start at the highest level with no frames counted.
    pub fn new() -> (c: Self)
        ensures
            c.level() == QualityLevel::High,
            c.spec_frames_since_adjustment() == 0,
            c.spec_total_frames() == 0,
            c.spec_slow_frames() == 0,
    {
        QualityController {
            current_level: QualityLevel::High,
            current_settings: QualitySettings::for_level(QualityLevel::High),
            frames_since_adjustment: 0,
            total_frames: 0,
            slow_frames: 0,
            is_degraded: false,
        }
    }

    /// Current quality level.
    pub fn quality_level(&self) -> (l: QualityLevel)
        ensures
            l == self.level(),
    {
        self.current_level
    }

    /// Current quality settings.
    pub fn settings(&self) -> (s: &QualitySettings)
        ensures
            *s == settings_for(self.level()),
    {
        proof {
            use_type_invariant(self);
        }
        &self.current_settings
    }

    /// Whether the controller is below the highest level.
    pub fn is_degraded(&self) -> (b: bool)
        ensures
            b == (self.level() != QualityLevel::High),
    {
        proof {
            use_type_invariant(self);
        }
        self.is_degraded
    }

    /// Total frames counted.
    pub fn total_frames(&self) -> (n: u64)
        ensures
            n == self.spec_total_frames(),
    {
        self.total_frames
    }

    /// Frames counted as slow.
    pub fn slow_frames(&self) -> (n: u64)
        ensures
            n == self.spec_slow_frames(),
            n <= self.spec_total_frames(),
    {
        proof {
            use_type_invariant(self);
        }
        self.slow_frames
    }

    /// Frames counted since the last adjustment opportunity.
    pub fn frames_since_adjustment(&self) -> (n: u32)
        ensures
            n == self.spec_frames_since_adjustment(),
    {
        self.frames_since_adjustment
    }

    /// Count a frame. Returns whether quality may be adjusted now: adaptive
    /// quality is enabled and at least `adjustment_delay` frames have been
    /// counted since the last opportunity, whose counter then restarts.
    pub fn count_frame(&mut self, slow: bool, enabled: bool, adjustment_delay: u32) -> (adjust: bool)
        requires
            old(self).spec_total_frames() < u64::MAX,
            old(self).spec_frames_since_adjustment() < u32::MAX,
        ensures
            final(self).spec_total_frames() == old(self).spec_total_frames() + 1,
            final(self).spec_slow_frames() == old(self).spec_slow_frames() + (if slow { 1int } else { 0 }),
            final(self).level() == old(self).level(),
            adjust == (enabled && old(self).spec_frames_since_adjustment() + 1 >= adjustment_delay),
            final(self).spec_frames_since_adjustment() == (if adjust {
                0
            } else {
                old(self).spec_frames_since_adjustment() + 1
            }),
    {
        proof {
            use_type_invariant(&*self);
        }
        self.total_frames = self.total_frames + 1;
        self.frames_since_adjustment = self.frames_since_adjustment + 1;
        if slow {
            self.slow_frames = self.slow_frames + 1;
        }
        if !enabled || self.frames_since_adjustment < adjustment_delay {
            return false;
        }
        self.frames_since_adjustment = 0;
        true
    }

    /// Decrease quality by one level; false when already at the minimum.
    pub fn degrade_quality(&mut self) -> (changed: bool)
        ensures
            changed == (lower_level(old(self).level()) is Some),
            changed ==> Some(final(self).level()) == lower_level(old(self).level()),
            !changed ==> final(self).level() == old(self).level(),
            final(self).spec_total_frames() == old(self).spec_total_frames(),
            final(self).spec_slow_frames() == old(self).spec_slow_frames(),
            final(self).spec_frames_since_adjustment() == old(self).spec_frames_since_adjustment(),
    {
        proof {
            use_type_invariant(&*self);
        }
        let new_level = match self.current_level {
            QualityLevel::High => QualityLevel::Medium,
            QualityLevel::Medium => QualityLevel::Low,
            QualityLevel::Low => QualityLevel::Minimal,
            QualityLevel::Minimal => {
                return false;
            },
        };
        self.set_quality_level(new_level);
        true
    }

    /// Increase quality by one level; false when already at the maximum.
    pub fn improve_quality(&mut self) -> (changed: bool)
        ensures
            changed == (higher_level(old(self).level()) is Some),
            changed ==> Some(final(self).level()) == higher_level(old(self).level()),
            !changed ==> final(self).level() == old(self).level(),
            final(self).spec_total_frames() == old(self).spec_total_frames(),
            final(self).spec_slow_frames() == old(self).spec_slow_frames(),
            final(self).spec_frames_since_adjustment() == old(self).spec_frames_since_adjustment(),
    {
        proof {
            use_type_invariant(&*self);
        }
        let new_level = match self.current_level {
            QualityLevel::High => {
                return false;
            },
            QualityLevel::Medium => QualityLevel::High,
            QualityLevel::Low => QualityLevel::Medium,
            QualityLevel::Minimal => QualityLevel::Low,
        };
        self.set_quality_level(new_level);
        true
    }

    /// Adjust quality after timing a frame: degrade when over budget;
    /// otherwise improve when under budget and degraded; returns whether the
    /// level changed.
    pub fn try_adjust_quality(&mut self, over_budget: bool, under_budget: bool) -> (changed: bool)
        ensures
            over_budget ==> changed == (lower_level(old(self).level()) is Some) && (changed ==> Some(
                final(self).level(),
            ) == lower_level(old(self).level())),
            !over_budget && under_budget && old(self).level() != QualityLevel::High ==> changed
                && Some(final(self).level()) == higher_level(old(self).level()),
            !over_budget && !(under_budget && old(self).level() != QualityLevel::High) ==> !changed,
            !changed ==> final(self).level() == old(self).level(),
            final(self).spec_total_frames() == old(self).spec_total_frames(),
            final(self).spec_slow_frames() == old(self).spec_slow_frames(),
            final(self).spec_frames_since_adjustment() == old(self).spec_frames_since_adjustment(),
    {
        proof {
            use_type_invariant(&*self);
        }
        if over_budget {
            return self.degrade_quality();
        }
        if under_budget && self.is_degraded {
            return self.improve_quality();
        }
        false
    }

    /// Force a specific quality level.
    pub fn set_quality_level(&mut self, level: QualityLevel)
        ensures
            final(self).level() == level,
            final(self).spec_total_frames() == old(self).spec_total_frames(),
            final(self).spec_slow_frames() == old(self).spec_slow_frames(),
            final(self).spec_frames_since_adjustment() == old(self).spec_frames_since_adjustment(),
    {
        proof {
            use_type_invariant(&*self);
        }
        let settings = QualitySettings::for_level(level);
        let degraded = match level {
            QualityLevel::High => false,
            _ => true,
        };
        *self = QualityController {
            current_level: level,
            current_settings: settings,
            frames_since_adjustment: self.frames_since_adjustment,
            total_frames: self.total_frames,
            slow_frames: self.slow_frames,
            is_degraded: degraded,
        };
    }

    /// Reset the frame counters, keeping the level.
    pub fn reset_stats(&mut self)
        ensures
            final(self).level() == old(self).level(),
            final(self).spec_total_frames() == 0,
            final(self).spec_slow_frames() == 0,
            final(self).spec_frames_since_adjustment() == 0,
    {
        proof {
            use_type_invariant(&*self);
        }
        *self = QualityController {
            current_level: self.current_level,
            current_settings: self.current_settings,
            frames_since_adjustment: 0,
            total_frames: 0,
            slow_frames: 0,
            is_degraded: self.is_degraded,
        };
    }
}

} // verus!
