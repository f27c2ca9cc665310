//! Keyframe selection: when the current frame should become a keyframe,
//! and why.

use vstd::prelude::*;

verus! {

/// Result of a keyframe decision, with its reason.
#[derive(Debug, Clone, Copy, PartialEq, Eq, Structural)]
pub enum KeyFrameDecision {
    /// Don't create keyframe - not enough frames passed
    TooSoon,
    /// Don't create keyframe - motion is too small
    InsufficientMotion,
    /// Create keyframe - forced by timeout
    Timeout,
    /// Create keyframe - too few tracked points
    LowTrackingCount,
    /// Create keyframe - tracking ratio dropped
    LowTrackingRatio,
    /// Create keyframe - sufficient translation
    SufficientTranslation,
    /// Create keyframe - sufficient rotation/parallax
    SufficientParallax,
}

impl KeyFrameDecision {
    /// Whether the decision is to create a keyframe: every reason except
    /// too soon and insufficient motion.
    pub fn should_create(&self) -> (b: bool)
        ensures
            b == !(*self == KeyFrameDecision::TooSoon || *self
                == KeyFrameDecision::InsufficientMotion),
    {
        match self {
            KeyFrameDecision::Timeout | KeyFrameDecision::LowTrackingCount
            | KeyFrameDecision::LowTrackingRatio | KeyFrameDecision::SufficientTranslation
            | KeyFrameDecision::SufficientParallax => true,
            _ => false,
        }
    }
}

/// Whether a decision is to create a keyframe.
pub open spec fn creates(d: KeyFrameDecision) -> bool {
    !(d == KeyFrameDecision::TooSoon || d == KeyFrameDecision::InsufficientMotion)
}

/// The frame and point count thresholds of keyframe selection.
#[derive(Debug, Clone, Copy, PartialEq, Eq, Structural)]
pub struct KeyFrameThresholds {
    /// Minimum frames between keyframes
    pub min_frames_since_last: u32,
    /// Maximum frames before forcing a new keyframe
    pub max_frames_since_last: u32,
    /// Minimum number of tracked points
    pub min_tracked_points: usize,
}

/// The decision, checking in turn: too few frames since the last keyframe,
/// the frame limit reached, too few tracked points, a low tracked ratio,
/// enough translation, enough parallax; otherwise too little motion.
pub open spec fn decision(
    t: KeyFrameThresholds,
    tracked_points: usize,
    frames_since_last: u32,
    low_tracked_ratio: bool,
    enough_translation: bool,
    enough_parallax: bool,
) -> KeyFrameDecision {
    if frames_since_last < t.min_frames_since_last {
        KeyFrameDecision::TooSoon
    } else if frames_since_last >= t.max_frames_since_last {
        KeyFrameDecision::Timeout
    } else if tracked_points < t.min_tracked_points {
        KeyFrameDecision::LowTrackingCount
    } else if low_tracked_ratio {
        KeyFrameDecision::LowTrackingRatio
    } else if enough_translation {
        KeyFrameDecision::SufficientTranslation
    } else if enough_parallax {
        KeyFrameDecision::SufficientParallax
    } else {
        KeyFrameDecision::InsufficientMotion
    }
}

impl KeyFrameThresholds {
    /// Default thresholds: at least 10 frames apart, a keyframe forced after
    /// 60, at least 30 tracked points.
    pub fn new() -> (t: Self)
        ensures
            t.min_frames_since_last == 10,
            t.max_frames_since_last == 60,
            t.min_tracked_points == 30,
    {
        KeyFrameThresholds { min_frames_since_last: 10, max_frames_since_last: 60, min_tracked_points: 30 }
    }

    /// Thresholds for fast motion: 5 frames apart, forced after 30, 20 points.
    pub fn fast_motion() -> (t: Self)
        ensures
            t.min_frames_since_last == 5,
            t.max_frames_since_last == 30,
            t.min_tracked_points == 20,
    {
        KeyFrameThresholds { min_frames_since_last: 5, max_frames_since_last: 30, min_tracked_points: 20 }
    }

    /// Thresholds for slow motion: 20 frames apart, forced after 120, 40 points.
    pub fn slow_motion() -> (t: Self)
        ensures
            t.min_frames_since_last == 20,
            t.max_frames_since_last == 120,
            t.min_tracked_points == 40,
    {
        KeyFrameThresholds { min_frames_since_last: 20, max_frames_since_last: 120, min_tracked_points: 40 }
    }

    /// The keyframe decision, given the outcomes of the tracked-ratio,
    /// translation and parallax tests.
    pub fn decide(
        &self,
        tracked_points: usize,
        frames_since_last: u32,
        low_tracked_ratio: bool,
        enough_translation: bool,
        enough_parallax: bool,
    ) -> (d: KeyFrameDecision)
        ensures
            d == decision(*self, tracked_points, frames_since_last, low_tracked_ratio, enough_translation, enough_parallax),
    {
        if frames_since_last < self.min_frames_since_last {
            return KeyFrameDecision::TooSoon;
        }
        if frames_since_last >= self.max_frames_since_last {
            return KeyFrameDecision::Timeout;
        }
        if tracked_points < self.min_tracked_points {
            return KeyFrameDecision::LowTrackingCount;
        }
        if low_tracked_ratio {
            return KeyFrameDecision::LowTrackingRatio;
        }
        if enough_translation {
            return KeyFrameDecision::SufficientTranslation;
        }
        if enough_parallax {
            return KeyFrameDecision::SufficientParallax;
        }
        KeyFrameDecision::InsufficientMotion
    }

    /// Whether a new keyframe is needed: exactly when the decision is to
    /// create one.
    pub fn need_new_keyframe(
        &self,
        tracked_points: usize,
        frames_since_last: u32,
        low_tracked_ratio: bool,
        enough_translation: bool,
        enough_parallax: bool,
    ) -> (b: bool)
        ensures
            b == creates(decision(*self, tracked_points, frames_since_last, low_tracked_ratio, enough_translation, enough_parallax)),
            b == (frames_since_last >= self.min_frames_since_last && (frames_since_last >= self.max_frames_since_last
                || tracked_points < self.min_tracked_points || low_tracked_ratio || enough_translation
                || enough_parallax)),
    {
        if frames_since_last < self.min_frames_since_last {
            return false;
        }
        if frames_since_last >= self.max_frames_since_last {
            return true;
        }
        if tracked_points < self.min_tracked_points {
            return true;
        }
        if low_tracked_ratio {
            return true;
        }
        if enough_translation {
            return true;
        }
        enough_parallax
    }

    /// Whether the frame limit forces a keyframe.
    pub fn timeout_check(&self, frames_since_last: u32) -> (b: bool)
        ensures
            b == (frames_since_last >= self.max_frames_since_last),
    {
        frames_since_last >= self.max_frames_since_last
    }

    /// Whether tracking has degraded: too few tracked points, or a low
    /// tracked ratio.
    pub fn tracking_quality_check(&self, tracked_points: usize, low_tracked_ratio: bool) -> (b: bool)
        ensures
            b == (tracked_points < self.min_tracked_points || low_tracked_ratio),
    {
        if tracked_points < self.min_tracked_points {
            return true;
        }
        low_tracked_ratio
    }
}

/// The checks of keyframe selection take precedence in a fixed order: too
/// soon, then the frame limit, then too few tracked points, then a low
/// tracked ratio, then translation, then parallax. Each reason is given
/// exactly when its check fires and every earlier check does not, whatever
/// the outcome of the later checks; with no check firing the motion is
/// insufficient.
pub proof fn lemma_decision_precedence(
    t: KeyFrameThresholds,
    tracked_points: usize,
    frames_since_last: u32,
    low_tracked_ratio: bool,
    enough_translation: bool,
    enough_parallax: bool,
)
    ensures
        ({
            let d = decision(
                t,
                tracked_points,
                frames_since_last,
                low_tracked_ratio,
                enough_translation,
                enough_parallax,
            );
            let in_window = t.min_frames_since_last <= frames_since_last
                < t.max_frames_since_last;
            let tracking_ok = in_window && tracked_points >= t.min_tracked_points;
            &&& (d == KeyFrameDecision::TooSoon) <==> frames_since_last < t.min_frames_since_last
            &&& (d == KeyFrameDecision::Timeout) <==> (frames_since_last >= t.min_frames_since_last
                && frames_since_last >= t.max_frames_since_last)
            &&& (d == KeyFrameDecision::LowTrackingCount) <==> (in_window && tracked_points
                < t.min_tracked_points)
            &&& (d == KeyFrameDecision::LowTrackingRatio) <==> (tracking_ok && low_tracked_ratio)
            &&& (d == KeyFrameDecision::SufficientTranslation) <==> (tracking_ok
                && !low_tracked_ratio && enough_translation)
            &&& (d == KeyFrameDecision::SufficientParallax) <==> (tracking_ok
                && !low_tracked_ratio && !enough_translation && enough_parallax)
            &&& (d == KeyFrameDecision::InsufficientMotion) <==> (tracking_ok
                && !low_tracked_ratio && !enough_translation && !enough_parallax)
        }),
{
}

/// The translation and parallax tests never change the decision once an
/// earlier check (too soon, frame limit, tracked count, tracked ratio) fires:
/// two calls that differ only in those tests agree.
pub proof fn lemma_motion_tests_come_last(
    t: KeyFrameThresholds,
    tracked_points: usize,
    frames_since_last: u32,
    low_tracked_ratio: bool,
    translation1: bool,
    parallax1: bool,
    translation2: bool,
    parallax2: bool,
)
    requires
        frames_since_last < t.min_frames_since_last || frames_since_last >= t.max_frames_since_last
            || tracked_points < t.min_tracked_points || low_tracked_ratio,
    ensures
        decision(t, tracked_points, frames_since_last, low_tracked_ratio, translation1, parallax1)
            == decision(t, tracked_points, frames_since_last, low_tracked_ratio, translation2, parallax2),
{
}

/// Once enough frames have passed since the last keyframe, a timeout or a
/// degraded tracking check always leads to a new keyframe.
pub proof fn lemma_checks_force_keyframe(
    t: KeyFrameThresholds,
    tracked_points: usize,
    frames_since_last: u32,
    low_tracked_ratio: bool,
    enough_translation: bool,
    enough_parallax: bool,
)
    requires
        frames_since_last >= t.min_frames_since_last,
        frames_since_last >= t.max_frames_since_last || tracked_points < t.min_tracked_points || low_tracked_ratio,
    ensures
        creates(decision(t, tracked_points, frames_since_last, low_tracked_ratio, enough_translation, enough_parallax)),
{
}

} // verus!
