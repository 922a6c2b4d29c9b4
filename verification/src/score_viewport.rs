//! The visible window onto the score grid: which pitch sits in the middle,
//! the grid resolution, and the leftmost time point shown.

use vstd::prelude::*;
use crate::pitch::Pitch;
use crate::resolution::Resolution;

verus! {

/// What a score-drawing pass reports back: the pitch and time bounds it
/// actually rendered, consumed by bar navigation.
#[derive(Debug, Clone, Copy)]
pub struct ViewportDrawResult {
    pub pitch_low: Pitch,
    pub pitch_high: Pitch,
    pub time_point_start: u64,
    pub time_point_end: u64,
}

/// The viewport: middle pitch row, grid resolution, leftmost visible time
/// point and the playhead time used for scroll decisions.
#[derive(Debug, Clone, Copy)]
pub struct ScoreViewport {
    pub middle_pitch: Pitch,
    pub resolution: Resolution,
    pub time_point: u64,
    pub playback_time_point: u64,
}

impl ScoreViewport {
    pub open spec fn wf(self) -> bool {
        self.middle_pitch.wf()
    }

    pub fn new(
        middle_pitch: Pitch,
        resolution: Resolution,
        time_point: u64,
        playback_time_point: u64,
    ) -> (r: ScoreViewport)
        ensures
            r == (ScoreViewport { middle_pitch, resolution, time_point, playback_time_point }),
    {
        ScoreViewport { middle_pitch, resolution, time_point, playback_time_point }
    }

    /// Scrolls the middle pitch one semitone up; a no-op at the boundary.
    pub fn next_octave(&self) -> (r: ScoreViewport)
        requires
            self.wf(),
        ensures
            r.middle_pitch == (if self.middle_pitch.next_spec() is Some {
                self.middle_pitch.next_spec()->Some_0
            } else {
                self.middle_pitch
            }),
            r.resolution == self.resolution,
            r.time_point == self.time_point,
            r.playback_time_point == self.playback_time_point,
            r.wf(),
    {
        let mut new_viewport = *self;
        if let Some(next_pitch) = self.middle_pitch.next() {
            new_viewport.middle_pitch = next_pitch;
        }
        new_viewport
    }

    /// Scrolls the middle pitch one semitone down; a no-op at the boundary.
    pub fn prev_octave(&self) -> (r: ScoreViewport)
        requires
            self.wf(),
        ensures
            r.middle_pitch == (if self.middle_pitch.prev_spec() is Some {
                self.middle_pitch.prev_spec()->Some_0
            } else {
                self.middle_pitch
            }),
            r.resolution == self.resolution,
            r.time_point == self.time_point,
            r.playback_time_point == self.playback_time_point,
            r.wf(),
    {
        let mut new_viewport = *self;
        if let Some(prev_pitch) = self.middle_pitch.prev() {
            new_viewport.middle_pitch = prev_pitch;
        }
        new_viewport
    }

    /// Scrolls one bar later once the playhead has passed the middle of the
    /// drawn viewport.
    pub fn next_bar(&self, viewport_draw_result: &ViewportDrawResult) -> (r: ScoreViewport)
        requires
            viewport_draw_result.time_point_start <= viewport_draw_result.time_point_end,
            self.time_point + 32 <= u64::MAX,
        ensures
            r.time_point == (if self.playback_time_point > (viewport_draw_result.time_point_end
                - viewport_draw_result.time_point_start) / 2
                + viewport_draw_result.time_point_start {
                (self.time_point + 32) as u64
            } else {
                self.time_point
            }),
            r.middle_pitch == self.middle_pitch,
            r.resolution == self.resolution,
            r.playback_time_point == self.playback_time_point,
    {
        let mut new_viewport = *self;

        let is_more_than_playhead_halfway_through_viewport = self.playback_time_point
            > (viewport_draw_result.time_point_end - viewport_draw_result.time_point_start) / 2
            + viewport_draw_result.time_point_start;
        if is_more_than_playhead_halfway_through_viewport {
            new_viewport.time_point += 32;
        }

        new_viewport
    }

    /// Scrolls one bar earlier once the playhead sits before the middle of
    /// the drawn viewport; clamped at the start of the song.
    pub fn prev_bar(&self, viewport_draw_result: &ViewportDrawResult) -> (r: ScoreViewport)
        requires
            viewport_draw_result.time_point_start <= viewport_draw_result.time_point_end,
        ensures
            r.time_point == (if self.playback_time_point < (viewport_draw_result.time_point_end
                - viewport_draw_result.time_point_start) / 2
                + viewport_draw_result.time_point_start && self.time_point >= 32 {
                (self.time_point - 32) as u64
            } else {
                self.time_point
            }),
            r.middle_pitch == self.middle_pitch,
            r.resolution == self.resolution,
            r.playback_time_point == self.playback_time_point,
    {
        let mut new_viewport = *self;

        let is_less_than_playhead_halfway_through_viewport = self.playback_time_point
            < (viewport_draw_result.time_point_end - viewport_draw_result.time_point_start) / 2
            + viewport_draw_result.time_point_start;
        if is_less_than_playhead_halfway_through_viewport && self.time_point >= 32 {
            new_viewport.time_point -= 32;
        }

        new_viewport
    }

    /// Moves to the next finer grid resolution.
    pub fn increase_resolution(&self) -> (r: ScoreViewport)
        ensures
            r == (ScoreViewport { resolution: self.resolution.next_up_spec(), ..*self }),
    {
        let mut new_viewport = *self;
        new_viewport.resolution = self.resolution.next_up();
        new_viewport
    }

    /// Moves to the next coarser grid resolution.
    pub fn decrease_resolution(&self) -> (r: ScoreViewport)
        ensures
            r == (ScoreViewport { resolution: self.resolution.next_down_spec(), ..*self }),
    {
        let mut new_viewport = *self;
        new_viewport.resolution = self.resolution.next_down();
        new_viewport
    }

    pub fn set_playback_time(&self, time: u64) -> (r: ScoreViewport)
        ensures
            r == (ScoreViewport { playback_time_point: time, ..*self }),
    {
        let mut new_viewport = *self;
        new_viewport.playback_time_point = time;
        new_viewport
    }

    pub fn set_time_point(&self, time: u64) -> (r: ScoreViewport)
        ensures
            r == (ScoreViewport { time_point: time, ..*self }),
    {
        let mut new_viewport = *self;
        new_viewport.time_point = time;
        new_viewport
    }
}

} // verus!
