use vstd::prelude::*;
use crate::constants::{ANIMATION_FRAME_TIME, EXPLOSION_FRAME_COUNT, SPAWN_FRAME_COUNT};
use crate::pickup::sat_add;

verus! {

#[derive(Copy, Clone, Debug, PartialEq, Eq, Structural)]
pub enum AnimMode {
    Once,
    Loop,
}

/// Which sprite sequence an animation shows.
#[derive(Copy, Clone, Debug, PartialEq, Eq, Structural)]
pub enum AnimSheet {
    Explosion,
    Spawn,
}

/// What an animation is, as the contracts see it.
pub struct AnimationView {
    pub sheet: AnimSheet,
    pub position: [i32; 2],
    pub previous: [i32; 2],
    pub billboard: bool,
    pub frame: usize,
    pub frame_count: usize,
    pub frame_duration: u64,
    pub elapsed: u64,
    pub mode: AnimMode,
    /// A play-once animation has shown its last frame for its full duration.
    pub finished: bool,
}

impl AnimationView {
    pub open spec fn inv(self) -> bool {
        self.frame < self.frame_count
    }

    /// The state after `dt` more time: once a frame's duration is reached
    /// the next frame shows (wrapping when looping; a play-once animation
    /// that is on its last frame finishes instead).
    pub open spec fn advanced(self, dt: u64) -> AnimationView {
        let e = sat_add(self.elapsed, dt);
        if e >= self.frame_duration {
            match self.mode {
                AnimMode::Loop => AnimationView {
                    elapsed: 0,
                    frame: ((self.frame + 1) % (self.frame_count as int)) as usize,
                    ..self
                },
                AnimMode::Once => if self.frame + 1 < self.frame_count {
                    AnimationView { elapsed: 0, frame: (self.frame + 1) as usize, ..self }
                } else {
                    AnimationView { elapsed: 0, finished: true, ..self }
                },
            }
        } else {
            AnimationView { elapsed: e, ..self }
        }
    }

    pub open spec fn done(self) -> bool {
        self.mode is Once && self.finished
    }
}

/// A fresh animation of `sheet` at `p`.
pub open spec fn fresh_animation(p: [i32; 2], sheet: AnimSheet, frame_count: usize, frame_duration: u64, mode: AnimMode) -> AnimationView {
    AnimationView {
        sheet,
        position: p,
        previous: p,
        billboard: true,
        frame: 0,
        frame_count,
        frame_duration,
        elapsed: 0,
        mode,
        finished: false,
    }
}

/// The explosion that a hit leaves at `p`.
pub open spec fn explosion_at(p: [i32; 2]) -> AnimationView {
    fresh_animation(p, AnimSheet::Explosion, EXPLOSION_FRAME_COUNT, ANIMATION_FRAME_TIME, AnimMode::Once)
}

/// The looping marker shown where a combatant respawned.
pub open spec fn spawn_marker_at(p: [i32; 2]) -> AnimationView {
    fresh_animation(p, AnimSheet::Spawn, SPAWN_FRAME_COUNT, ANIMATION_FRAME_TIME, AnimMode::Loop)
}

/// A sprite sequence shown at a tile.
pub struct Animation {
    pub billboard: bool,
    sheet: AnimSheet,
    frame_count: usize,
    current_frame: usize,
    frame_duration: u64,
    frame_dt: u64,
    mode: AnimMode,
    finished: bool,
    pos2d: [i32; 2],
    prev2d: [i32; 2],
}

impl View for Animation {
    type V = AnimationView;

    closed spec fn view(&self) -> AnimationView {
        AnimationView {
            sheet: self.sheet,
            position: self.pos2d,
            previous: self.prev2d,
            billboard: self.billboard,
            frame: self.current_frame,
            frame_count: self.frame_count,
            frame_duration: self.frame_duration,
            elapsed: self.frame_dt,
            mode: self.mode,
            finished: self.finished,
        }
    }
}

impl Animation {
    pub fn new(position_2d: [i32; 2], sheet: AnimSheet, frame_count: usize, frame_duration: u64, mode: AnimMode) -> (r: Self)
        requires
            frame_count > 0,
        ensures
            r@ == fresh_animation(position_2d, sheet, frame_count, frame_duration, mode),
            r@.inv(),
    {
        Animation {
            billboard: true,
            sheet,
            frame_count,
            current_frame: 0,
            frame_duration,
            frame_dt: 0,
            mode,
            finished: false,
            pos2d: position_2d,
            prev2d: position_2d,
        }
    }

    pub fn new_explosion(position_2d: [i32; 2]) -> (r: Self)
        ensures
            r@ == explosion_at(position_2d),
            r@.inv(),
    {
        Self::new(position_2d, AnimSheet::Explosion, EXPLOSION_FRAME_COUNT, ANIMATION_FRAME_TIME, AnimMode::Once)
    }

    pub fn new_spawn(position_2d: [i32; 2]) -> (r: Self)
        ensures
            r@ == spawn_marker_at(position_2d),
            r@.inv(),
    {
        Self::new(position_2d, AnimSheet::Spawn, SPAWN_FRAME_COUNT, ANIMATION_FRAME_TIME, AnimMode::Loop)
    }

    pub fn on_frame(&mut self, dt: u64)
        requires
            old(self)@.inv(),
        ensures
            final(self)@ == old(self)@.advanced(dt),
            final(self)@.inv(),
    {
        self.frame_dt = self.frame_dt.saturating_add(dt);
        if self.frame_dt >= self.frame_duration {
            self.frame_dt = 0;
            match self.mode {
                AnimMode::Loop => {
                    self.current_frame = (self.current_frame + 1) % self.frame_count;
                },
                AnimMode::Once => {
                    if self.current_frame + 1 < self.frame_count {
                        self.current_frame = self.current_frame + 1;
                    } else {
                        self.finished = true;
                    }
                },
            }
        }
    }

    pub fn is_finished(&self) -> (r: bool)
        ensures
            r == self@.done(),
    {
        match self.mode {
            AnimMode::Once => self.finished,
            AnimMode::Loop => false,
        }
    }

    pub fn set_position(&mut self, pos: [i32; 2])
        ensures
            final(self)@ == (AnimationView { position: pos, previous: old(self)@.position, ..old(self)@ }),
    {
        self.prev2d = self.pos2d;
        self.pos2d = pos;
    }

    pub fn get_position(&self) -> (r: [i32; 2])
        ensures
            r == self@.position,
    {
        self.pos2d
    }

    pub fn get_previous_position(&self) -> (r: [i32; 2])
        ensures
            r == self@.previous,
    {
        self.prev2d
    }

    /// Index of the frame now shown, within the sheet.
    pub fn current_frame(&self) -> (r: usize)
        ensures
            r == self@.frame,
    {
        self.current_frame
    }

    pub fn sheet(&self) -> (r: AnimSheet)
        ensures
            r == self@.sheet,
    {
        self.sheet
    }
}

} // verus!
