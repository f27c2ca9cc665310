//! Which frames the lighting estimator analyses: every `interval`-th frame,
//! counting frames with a wrapping 32-bit counter.

use vstd::prelude::*;

verus! {

/// The frame counter after one more frame: it wraps from `u32::MAX` to 0.
pub open spec fn next_count(count: u32) -> u32 {
    if count == u32::MAX {
        0
    } else {
        (count + 1) as u32
    }
}

/// Frame counter and analysis interval of the lighting estimator.
#[derive(Debug)]
pub struct AnalysisSchedule {
    frame_count: u32,
    analysis_interval: u32,
}

impl AnalysisSchedule {
    /// The interval is at least one frame.
    #[verifier::type_invariant]
    closed spec fn wf(&self) -> bool {
        self.analysis_interval >= 1
    }

    /// Frames counted so far (wrapping).
    pub closed spec fn spec_frame_count(&self) -> u32 {
        self.frame_count
    }

    /// Frames between two analyses.
    pub closed spec fn spec_interval(&self) -> u32 {
        self.analysis_interval
    }

    /// No frame counted yet; analyse every sixth frame.
    pub fn new() -> (s: Self)
        ensures
            s.spec_frame_count() == 0,
            s.spec_interval() == 6,
    {
        AnalysisSchedule { frame_count: 0, analysis_interval: 6 }
    }

    /// Analyse every `interval`-th frame; an interval of 0 counts as 1.
    pub fn set_interval(&mut self, interval: u32)
        ensures
            final(self).spec_interval() == (if interval >= 1 { interval } else { 1 }),
            final(self).spec_frame_count() == old(self).spec_frame_count(),
    {
        self.analysis_interval = if interval >= 1 { interval } else { 1 };
    }

    /// Start counting frames again from zero.
    pub fn reset(&mut self)
        ensures
            final(self).spec_frame_count() == 0,
            final(self).spec_interval() == old(self).spec_interval(),
    {
        proof {
            use_type_invariant(&*self);
        }
        self.frame_count = 0;
    }

    /// Count one more frame, and say whether it is to be analysed: its
    /// number is a multiple of the interval.
    pub fn tick(&mut self) -> (analyse: bool)
        ensures
            final(self).spec_frame_count() == next_count(old(self).spec_frame_count()),
            final(self).spec_interval() == old(self).spec_interval(),
            final(self).spec_interval() >= 1,
            analyse == (next_count(old(self).spec_frame_count()) % old(self).spec_interval() == 0),
    {
        proof {
            use_type_invariant(&*self);
        }
        self.frame_count = if self.frame_count == u32::MAX { 0 } else { self.frame_count + 1 };
        self.frame_count % self.analysis_interval == 0
    }

    /// Frames counted so far.
    pub fn frame_count(&self) -> (n: u32)
        ensures
            n == self.spec_frame_count(),
    {
        self.frame_count
    }

    /// Frames between two analyses.
    pub fn interval(&self) -> (n: u32)
        ensures
            n == self.spec_interval(),
            n >= 1,
    {
        proof {
            use_type_invariant(self);
        }
        self.analysis_interval
    }
}

} // verus!
