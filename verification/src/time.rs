//! Frame timing in whole microseconds. The host measures elapsed time and
//! hands the values in; the timer only accounts.

use vstd::prelude::*;

verus! {

/// One displayed frame's budget ceiling for the scaled step, in
/// microseconds.
pub const STEP_CLAMP_US: u64 = 32000;

/// Frame time accounting: the last frame's length, a running average, and
/// the total time accumulated, all in microseconds.
pub struct Timer {
    /// Length of the last frame.
    pub delta_time: u64,
    /// Average frame length over the run so far.
    pub smooth_delta_time: u64,
    /// Sum of all frame lengths.
    pub total_delta_time: u64,
    /// Frames accounted so far.
    pub frames: u32,
}

impl Timer {
    /// A fresh timer: nothing elapsed, the average seeded at a nominal
    /// frame.
    pub fn new() -> (r: Timer)
        ensures
            r.delta_time == 0,
            r.smooth_delta_time == 16000,
            r.total_delta_time == 0,
            r.frames == 0,
    {
        Timer { delta_time: 0, smooth_delta_time: 16000, total_delta_time: 0, frames: 0 }
    }

    /// Accounts one frame of the measured length: the frame count and total
    /// advance, and the average is the total over the count.
    pub fn capture(&mut self, elapsed_us: u64)
        requires
            old(self).frames < 0xffffffff,
            old(self).total_delta_time + elapsed_us < 0x8000000000000000,
        ensures
            final(self).delta_time == elapsed_us,
            final(self).frames == old(self).frames + 1,
            final(self).total_delta_time == old(self).total_delta_time + elapsed_us,
            final(self).smooth_delta_time as int == (final(self).total_delta_time as int) / (
            final(self).frames as int),
    {
        self.delta_time = elapsed_us;
        self.frames = self.frames + 1;
        self.total_delta_time = self.total_delta_time + elapsed_us;
        self.smooth_delta_time = self.total_delta_time / (self.frames as u64);
    }

    /// Frames per second the last frame corresponds to; zero before any
    /// frame was accounted.
    pub fn fps(&self) -> (r: u64)
        ensures
            self.delta_time > 0 ==> r == 1000000int / (self.delta_time as int),
            self.delta_time == 0 ==> r == 0,
    {
        if self.delta_time > 0 {
            1000000u64 / self.delta_time
        } else {
            0
        }
    }

    /// Total time accounted, in microseconds.
    pub fn time(&self) -> (r: u64)
        ensures
            r == self.total_delta_time,
    {
        self.total_delta_time
    }

    /// The last frame's length clamped to the step ceiling: the step the
    /// physics pass simulates, so one slow frame cannot explode a step.
    pub fn delta_time_scaled(&self) -> (r: u64)
        ensures
            r == (if self.delta_time <= STEP_CLAMP_US {
                self.delta_time
            } else {
                STEP_CLAMP_US
            }),
            r <= 32000,
    {
        if self.delta_time <= STEP_CLAMP_US {
            self.delta_time
        } else {
            STEP_CLAMP_US
        }
    }
}

} // verus!
