use vstd::prelude::*;

verus! {

/// The frame counter of the debug overlay.
pub struct DebugOverlay {
    /// Frames drawn since the count was last taken.
    pub frames: usize,
    /// Frames drawn in the last whole second that was counted.
    pub last_frames: usize,
}

impl Default for DebugOverlay {
    fn default() -> (r: DebugOverlay)
        ensures
            r.frames == 0,
            r.last_frames == 0,
    {
        DebugOverlay { frames: 0, last_frames: 0 }
    }
}

impl DebugOverlay {
    /// Counts one drawn frame; when a second has passed since the count was
    /// last taken (`second_passed`), the count becomes the frame rate shown
    /// and starts again. Returns whether the count was taken, so that the
    /// caller restarts its clock.
    pub fn frame(&mut self, second_passed: bool) -> (r: bool)
        requires
            old(self).frames < usize::MAX,
        ensures
            r == second_passed,
            second_passed ==> final(self).last_frames == old(self).frames + 1 && final(self).frames
                == 0,
            !second_passed ==> final(self).last_frames == old(self).last_frames
                && final(self).frames == old(self).frames + 1,
    {
        self.frames = self.frames + 1;
        if second_passed {
            self.last_frames = self.frames;
            self.frames = 0;
        }
        second_passed
    }
}

} // verus!
