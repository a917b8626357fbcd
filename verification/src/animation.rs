//! Frame stepping for sprite-sheet animations.
//!
//! Timing is the caller's business. What is decided here is which frame
//! comes next once the current one has run its time, and which frame is
//! current after one has been taken out of the list.

use vstd::prelude::*;

verus! {

/// Where an animation stands after a step.
#[derive(Debug, Clone, Copy, PartialEq, Eq, Structural)]
pub struct FrameStep {
    /// Index of the frame to show.
    pub current_frame: usize,
    /// Whether the animation keeps playing.
    pub playing: bool,
}

/// The step that follows frame `current_frame` of `frame_count`: the next
/// frame; after the last one the first again if the animation loops, else
/// the last frame held and playback over.
pub open spec fn spec_advance_frame(current_frame: usize, frame_count: usize, looping: bool) -> FrameStep {
    if current_frame + 1 < frame_count {
        FrameStep { current_frame: (current_frame + 1) as usize, playing: true }
    } else if looping {
        FrameStep { current_frame: 0, playing: true }
    } else {
        FrameStep { current_frame: (frame_count - 1) as usize, playing: false }
    }
}

/// Advances a playing animation by one frame.
///
/// The animation must stand on one of its frames; the step then does so too.
pub fn advance_frame(current_frame: usize, frame_count: usize, looping: bool) -> (step: FrameStep)
    requires
        current_frame < frame_count,
    ensures
        step == spec_advance_frame(current_frame, frame_count, looping),
        step.current_frame < frame_count,
{
    let next = current_frame + 1;
    if next < frame_count {
        FrameStep { current_frame: next, playing: true }
    } else if looping {
        FrameStep { current_frame: 0, playing: true }
    } else {
        FrameStep { current_frame: frame_count - 1, playing: false }
    }
}

/// The current frame after a frame has been deleted and `remaining` are
/// left: unchanged while it still names a frame, else the last frame. With
/// no frame left it stays as it was.
pub open spec fn spec_frame_after_delete(current_frame: usize, remaining: usize) -> usize {
    if current_frame >= remaining && remaining > 0 {
        (remaining - 1) as usize
    } else {
        current_frame
    }
}

/// Pulls the current frame back into the list after a deletion.
pub fn frame_after_delete(current_frame: usize, remaining: usize) -> (frame: usize)
    ensures
        frame == spec_frame_after_delete(current_frame, remaining),
        remaining > 0 ==> frame < remaining,
{
    if current_frame >= remaining && remaining > 0 {
        remaining - 1
    } else {
        current_frame
    }
}

} // verus!
