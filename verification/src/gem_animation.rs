use crate::screen::Region;
use vstd::prelude::*;

verus! {

/// The number of the last frame of the animation.
pub const LAST_FRAME: i32 = 8;

/// The animation as a mathematical value.
pub struct AnimationState {
    /// The frame that is drawn next.
    pub frame: int,
    /// Whether the animation runs.
    pub playing: bool,
    /// Where its left edge stands on the screen.
    pub x_offset: int,
}

/// The gem that is animated above the grid: a strip of frames, shown one after the
/// other once it plays, and resting on the last one.
pub struct GemAnimation {
    frame_number: i32,
    is_playing: bool,
    x_offset: i32,
}

impl View for GemAnimation {
    type V = AnimationState;

    closed spec fn view(&self) -> AnimationState {
        AnimationState {
            frame: self.frame_number as int,
            playing: self.is_playing,
            x_offset: self.x_offset as int,
        }
    }
}

impl GemAnimation {
    #[verifier::type_invariant]
    spec fn frame_in_range(self) -> bool {
        0 <= self.frame_number <= LAST_FRAME
    }

    /// The animation at rest on its first frame, centred in a window of the given width.
    pub fn new(window_width: usize) -> (r: GemAnimation)
        requires
            window_width / 2 - 32 <= i32::MAX,
        ensures
            r@ == (AnimationState { frame: 0, playing: false, x_offset: window_width / 2 - 32 }),
    {
        GemAnimation {
            frame_number: 0,
            is_playing: false,
            x_offset: ((window_width / 2) as i64 - 32) as i32,
        }
    }

    /// Sets the animation going.
    pub fn play(&mut self)
        ensures
            final(self)@ == (AnimationState { playing: true, ..old(self)@ }),
    {
        proof {
            use_type_invariant(&*self);
        }
        self.is_playing = true;
    }

    /// The place of the current frame on the sprite sheet.
    pub fn source_region(&self) -> (r: Region)
        ensures
            0 <= self@.frame <= LAST_FRAME,
            r == (Region { x: (64 * self@.frame) as i32, y: 32, width: 64, height: 64 }),
    {
        proof {
            use_type_invariant(self);
        }
        Region { x: 64 * self.frame_number, y: 32, width: 64, height: 64 }
    }

    /// Where the animation is drawn on the screen.
    pub fn screen_region(&self) -> (r: Region)
        ensures
            r == (Region { x: self@.x_offset as i32, y: 20, width: 64, height: 64 }),
    {
        Region { x: self.x_offset, y: 20, width: 64, height: 64 }
    }

    /// Moves on to the next frame once the current one has been drawn: while the
    /// animation plays and has not reached its last frame.
    pub fn advance(&mut self)
        ensures
            final(self)@ == (AnimationState {
                frame: if old(self)@.playing && old(self)@.frame < LAST_FRAME {
                    old(self)@.frame + 1
                } else {
                    old(self)@.frame
                },
                ..old(self)@
            }),
    {
        proof {
            use_type_invariant(&*self);
        }
        if self.is_playing && self.frame_number < LAST_FRAME {
            self.frame_number += 1;
        }
    }
}

} // verus!
