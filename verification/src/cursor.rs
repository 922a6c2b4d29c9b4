//! The edit cursor: a grid position plus the editing-mode state machine that
//! drives insertion, selection and clipboard operations.

use vstd::prelude::*;
use crate::pitch::Pitch;
use crate::selection_range::SelectionRange;

verus! {

#[derive(Debug, Clone, Copy, PartialEq, Eq, Structural)]
enum Visibility {
    Hidden,
    Visible,
}

/// What a user interaction currently means. Exactly one mode is active:
/// plain movement, long-note insertion anchored at an onset, rectangle
/// selection anchored at a pitch and onset, or a just-taken copy.
#[derive(Debug, Clone, Copy, PartialEq, Eq, Structural)]
pub enum CursorMode {
    Move,
    Insert(u64),
    Select(Pitch, u64),
    Yank,
}

/// `t` snapped down to the nearest multiple of `d`.
pub open spec fn align_down(t: int, d: int) -> int {
    t - t % d
}

/// The edit cursor: a pitch row, a time point aligned to the grid, a
/// visibility flag, and the active mode.
#[derive(Debug, Clone, Copy)]
pub struct Cursor {
    pitch: Pitch,
    time_point: u64,
    visibility: Visibility,
    mode: CursorMode,
}

impl Cursor {
    /// The cursor's pitch row.
    pub closed spec fn pitch_spec(self) -> Pitch {
        self.pitch
    }

    /// The cursor's time point, in 32nd-note units.
    pub closed spec fn time_point_spec(self) -> u64 {
        self.time_point
    }

    /// The active mode.
    pub closed spec fn mode_spec(self) -> CursorMode {
        self.mode
    }

    /// Whether the cursor is drawn.
    pub closed spec fn visible_spec(self) -> bool {
        self.visibility == Visibility::Visible
    }

    /// The cursor's pitch is valid, as is a selection anchor's.
    pub open spec fn wf(self) -> bool {
        &&& self.pitch_spec().wf()
        &&& (self.mode_spec() matches CursorMode::Select(p, _) ==> p.wf())
    }

    /// The highlight predicate: where on the grid this cursor shows. In
    /// `Move` and `Yank` only the exact cell; in `Insert` the whole pitch row
    /// between the anchored onset and the time point, inclusive; in `Select`
    /// the rectangle between anchor and cursor across pitch and time.
    pub open spec fn visible_at_spec(self, pitch: Pitch, time_point: u64) -> bool {
        &&& self.visible_spec()
        &&& match self.mode_spec() {
            CursorMode::Move | CursorMode::Yank => time_point == self.time_point_spec()
                && self.pitch_spec() == pitch,
            CursorMode::Insert(onset_b32) => {
                let lo = if onset_b32 <= self.time_point_spec() {
                    onset_b32
                } else {
                    self.time_point_spec()
                };
                let hi = if onset_b32 <= self.time_point_spec() {
                    self.time_point_spec()
                } else {
                    onset_b32
                };
                lo <= time_point <= hi && self.pitch_spec() == pitch
            },
            CursorMode::Select(anchor_pitch, onset_b32) => {
                let tlo = if onset_b32 <= self.time_point_spec() {
                    onset_b32
                } else {
                    self.time_point_spec()
                };
                let thi = if onset_b32 <= self.time_point_spec() {
                    self.time_point_spec()
                } else {
                    onset_b32
                };
                let hlo = if anchor_pitch.height_spec() <= self.pitch_spec().height_spec() {
                    anchor_pitch.height_spec()
                } else {
                    self.pitch_spec().height_spec()
                };
                let hhi = if anchor_pitch.height_spec() <= self.pitch_spec().height_spec() {
                    self.pitch_spec().height_spec()
                } else {
                    anchor_pitch.height_spec()
                };
                tlo <= time_point <= thi && hlo <= pitch.height_spec() <= hhi
            },
        }
    }

    /// A fresh cursor: hidden, in `Move` mode, at the given cell.
    pub fn new(pitch: Pitch, time_point: u64) -> (r: Cursor)
        requires
            pitch.wf(),
        ensures
            r.pitch_spec() == pitch,
            r.time_point_spec() == time_point,
            !r.visible_spec(),
            r.mode_spec() == CursorMode::Move,
            r.wf(),
    {
        Cursor { pitch, time_point, visibility: Visibility::Hidden, mode: CursorMode::Move }
    }

    /// Snaps the time point down to the nearest multiple of `duration`, for
    /// when the grid resolution changes.
    pub fn resolution_align(self, duration: u64) -> (r: Cursor)
        requires
            1 <= duration,
        ensures
            r.time_point_spec() as int == align_down(self.time_point_spec() as int, duration as int),
            r.pitch_spec() == self.pitch_spec(),
            r.mode_spec() == self.mode_spec(),
            r.visible_spec() == self.visible_spec(),
            self.wf() ==> r.wf(),
    {
        let mut next_cursor = self;
        proof {
            assert(next_cursor.time_point as int % (duration as int) <= next_cursor.time_point as int)
                by (nonlinear_arith)
                requires
                    duration as int >= 1,
                    next_cursor.time_point as int >= 0,
            ;
        }
        next_cursor.time_point = next_cursor.time_point - next_cursor.time_point % duration;
        next_cursor
    }

    /// Steps one grid cell left, re-aligning to the grid; clamped at time 0,
    /// and a no-op while inserting once the time point sits on the anchored
    /// onset.
    pub fn left(self, duration: u64) -> (r: Cursor)
        requires
            1 <= duration,
        ensures
            (self.mode_spec() matches CursorMode::Insert(onset_b32) && onset_b32
                == self.time_point_spec()) ==> r == self,
            !(self.mode_spec() matches CursorMode::Insert(onset_b32) && onset_b32
                == self.time_point_spec()) ==> {
                &&& r.time_point_spec() as int == align_down(
                    if self.time_point_spec() >= duration {
                        self.time_point_spec() - duration
                    } else {
                        0
                    },
                    duration as int,
                )
                &&& r.pitch_spec() == self.pitch_spec()
                &&& r.mode_spec() == self.mode_spec()
                &&& r.visible_spec() == self.visible_spec()
            },
            self.wf() ==> r.wf(),
    {
        let mut next_cursor = self;

        // While inserting, the cursor cannot move before the note's start.
        if let CursorMode::Insert(onset_b32) = self.mode {
            if self.time_point == onset_b32 {
                return next_cursor;
            }
        }

        if self.time_point >= duration {
            next_cursor.time_point -= duration;
        } else {
            next_cursor.time_point = 0;
        }
        proof {
            assert(next_cursor.time_point as int % (duration as int) <= next_cursor.time_point as int)
                by (nonlinear_arith)
                requires
                    duration as int >= 1,
                    next_cursor.time_point as int >= 0,
            ;
        }
        next_cursor.time_point = next_cursor.time_point - next_cursor.time_point % duration;
        next_cursor
    }

    /// Steps one grid cell right, re-aligning to the grid.
    pub fn right(self, duration: u64) -> (r: Cursor)
        requires
            1 <= duration,
            self.time_point_spec() + duration <= u64::MAX,
        ensures
            r.time_point_spec() as int == align_down(
                self.time_point_spec() + duration,
                duration as int,
            ),
            r.pitch_spec() == self.pitch_spec(),
            r.mode_spec() == self.mode_spec(),
            r.visible_spec() == self.visible_spec(),
            self.wf() ==> r.wf(),
    {
        let mut next_cursor = self;
        next_cursor.time_point += duration;
        proof {
            assert(next_cursor.time_point as int % (duration as int) <= next_cursor.time_point as int)
                by (nonlinear_arith)
                requires
                    duration as int >= 1,
                    next_cursor.time_point as int >= 0,
            ;
        }
        next_cursor.time_point = next_cursor.time_point - next_cursor.time_point % duration;
        next_cursor
    }

    /// Steps one semitone up; a no-op at the top pitch boundary.
    pub fn up(self) -> (r: Cursor)
        requires
            self.wf(),
        ensures
            r.pitch_spec() == (if self.pitch_spec().next_spec() is Some {
                self.pitch_spec().next_spec()->Some_0
            } else {
                self.pitch_spec()
            }),
            r.time_point_spec() == self.time_point_spec(),
            r.mode_spec() == self.mode_spec(),
            r.visible_spec() == self.visible_spec(),
            r.wf(),
    {
        let mut next_cursor = self;
        let next_pitch = self.pitch.next();
        if next_pitch.is_some() {
            next_cursor.pitch = next_pitch.unwrap();
        }
        next_cursor
    }

    /// Steps one semitone down; a no-op at the bottom pitch boundary.
    pub fn down(self) -> (r: Cursor)
        requires
            self.wf(),
        ensures
            r.pitch_spec() == (if self.pitch_spec().prev_spec() is Some {
                self.pitch_spec().prev_spec()->Some_0
            } else {
                self.pitch_spec()
            }),
            r.time_point_spec() == self.time_point_spec(),
            r.mode_spec() == self.mode_spec(),
            r.visible_spec() == self.visible_spec(),
            r.wf(),
    {
        let mut next_cursor = self;
        let prev_pitch = self.pitch.prev();
        if prev_pitch.is_some() {
            next_cursor.pitch = prev_pitch.unwrap();
        }
        next_cursor
    }

    pub fn show(self) -> (r: Cursor)
        ensures
            r.visible_spec(),
            r.pitch_spec() == self.pitch_spec(),
            r.time_point_spec() == self.time_point_spec(),
            r.mode_spec() == self.mode_spec(),
            self.wf() ==> r.wf(),
    {
        let mut next_cursor = self;
        next_cursor.visibility = Visibility::Visible;
        next_cursor
    }

    pub fn conceal(self) -> (r: Cursor)
        ensures
            !r.visible_spec(),
            r.pitch_spec() == self.pitch_spec(),
            r.time_point_spec() == self.time_point_spec(),
            r.mode_spec() == self.mode_spec(),
            self.wf() ==> r.wf(),
    {
        let mut next_cursor = self;
        next_cursor.visibility = Visibility::Hidden;
        next_cursor
    }

    pub fn visible(self) -> (r: bool)
        ensures
            r == self.visible_spec(),
    {
        self.visibility == Visibility::Visible
    }

    /// The highlight predicate, used only for rendering.
    pub fn visible_at(self, pitch: Pitch, time_point: u64) -> (r: bool)
        requires
            self.wf(),
            pitch.wf(),
        ensures
            r == self.visible_at_spec(pitch, time_point),
    {
        if !self.visible() {
            return false;
        }
        match self.mode {
            CursorMode::Move | CursorMode::Yank => {
                time_point == self.time_point && self.pitch == pitch
            }
            CursorMode::Insert(onset_b32) => {
                let lo = if onset_b32 <= self.time_point { onset_b32 } else { self.time_point };
                let hi = if onset_b32 <= self.time_point { self.time_point } else { onset_b32 };
                lo <= time_point && time_point <= hi && self.pitch == pitch
            }
            CursorMode::Select(anchor_pitch, onset_b32) => {
                let tlo = if onset_b32 <= self.time_point { onset_b32 } else { self.time_point };
                let thi = if onset_b32 <= self.time_point { self.time_point } else { onset_b32 };
                let ah = anchor_pitch.height();
                let ch = self.pitch.height();
                let hlo = if ah <= ch { ah } else { ch };
                let hhi = if ah <= ch { ch } else { ah };
                let ph = pitch.height();
                tlo <= time_point && time_point <= thi && hlo <= ph && ph <= hhi
            }
        }
    }

    pub fn time_point(self) -> (r: u64)
        ensures
            r == self.time_point_spec(),
    {
        self.time_point
    }

    pub fn pitch(self) -> (r: Pitch)
        ensures
            r == self.pitch_spec(),
    {
        self.pitch
    }

    pub fn mode(self) -> (r: CursorMode)
        ensures
            r == self.mode_spec(),
    {
        self.mode
    }

    /// Enters long-note insertion, anchored at the current time point.
    pub fn start_insert(self) -> (r: Cursor)
        ensures
            r.mode_spec() == CursorMode::Insert(self.time_point_spec()),
            r.pitch_spec() == self.pitch_spec(),
            r.time_point_spec() == self.time_point_spec(),
            r.visible_spec() == self.visible_spec(),
            self.wf() ==> r.wf(),
    {
        let mut cursor = self;
        cursor.mode = CursorMode::Insert(self.time_point);
        cursor
    }

    /// Leaves long-note insertion.
    pub fn end_insert(self) -> (r: Cursor)
        ensures
            r.mode_spec() == CursorMode::Move,
            r.pitch_spec() == self.pitch_spec(),
            r.time_point_spec() == self.time_point_spec(),
            r.visible_spec() == self.visible_spec(),
            self.wf() ==> r.wf(),
    {
        let mut cursor = self;
        cursor.mode = CursorMode::Move;
        cursor
    }

    /// Enters selection, anchored at the current pitch and time point.
    pub fn start_select(self) -> (r: Cursor)
        ensures
            r.mode_spec() == CursorMode::Select(self.pitch_spec(), self.time_point_spec()),
            r.pitch_spec() == self.pitch_spec(),
            r.time_point_spec() == self.time_point_spec(),
            r.visible_spec() == self.visible_spec(),
            self.wf() ==> r.wf(),
    {
        let mut cursor = self;
        cursor.mode = CursorMode::Select(self.pitch, self.time_point);
        cursor
    }

    /// Leaves selection.
    pub fn end_select(self) -> (r: Cursor)
        ensures
            r.mode_spec() == CursorMode::Move,
            r.pitch_spec() == self.pitch_spec(),
            r.time_point_spec() == self.time_point_spec(),
            r.visible_spec() == self.visible_spec(),
            self.wf() ==> r.wf(),
    {
        let mut cursor = self;
        cursor.mode = CursorMode::Move;
        cursor
    }

    /// Abandons whatever mode is active and returns to `Move`.
    pub fn cancel(self) -> (r: Cursor)
        ensures
            r.mode_spec() == CursorMode::Move,
            r.pitch_spec() == self.pitch_spec(),
            r.time_point_spec() == self.time_point_spec(),
            r.visible_spec() == self.visible_spec(),
            self.wf() ==> r.wf(),
    {
        let mut cursor = self;
        cursor.mode = CursorMode::Move;
        cursor
    }

    /// Marks that a copy was just taken; purely informational for rendering.
    pub fn yank(self) -> (r: Cursor)
        ensures
            r.mode_spec() == CursorMode::Yank,
            r.pitch_spec() == self.pitch_spec(),
            r.time_point_spec() == self.time_point_spec(),
            r.visible_spec() == self.visible_spec(),
            self.wf() ==> r.wf(),
    {
        let mut cursor = self;
        cursor.mode = CursorMode::Yank;
        cursor
    }

    /// The normalized selection rectangle, defined exactly while selecting:
    /// anchor and cursor are ordered into low/high bounds whichever way the
    /// selection was dragged.
    pub fn selection_range(self) -> (r: Option<SelectionRange>)
        requires
            self.wf(),
        ensures
            !(self.mode_spec() is Select) ==> r is None,
            self.mode_spec() matches CursorMode::Select(anchor_pitch, onset_b32) ==> {
                &&& r is Some
                &&& r->Some_0.time_point_start_b32 == (if onset_b32 < self.time_point_spec() {
                    onset_b32
                } else {
                    self.time_point_spec()
                })
                &&& r->Some_0.time_point_end_b32 == (if onset_b32 < self.time_point_spec() {
                    self.time_point_spec()
                } else {
                    onset_b32
                })
                &&& r->Some_0.pitch_low == (if anchor_pitch.height_spec()
                    < self.pitch_spec().height_spec() {
                    anchor_pitch
                } else {
                    self.pitch_spec()
                })
                &&& r->Some_0.pitch_high == (if anchor_pitch.height_spec()
                    < self.pitch_spec().height_spec() {
                    self.pitch_spec()
                } else {
                    anchor_pitch
                })
                &&& r->Some_0.wf()
            },
    {
        if let CursorMode::Select(anchor_pitch, onset_b32) = self.mode {
            let (time_point_start_b32, time_point_end_b32) = if onset_b32 < self.time_point {
                (onset_b32, self.time_point)
            } else {
                (self.time_point, onset_b32)
            };
            let (pitch_low, pitch_high) = if anchor_pitch.height() < self.pitch.height() {
                (anchor_pitch, self.pitch)
            } else {
                (self.pitch, anchor_pitch)
            };
            return Some(
                SelectionRange {
                    time_point_start_b32,
                    time_point_end_b32,
                    pitch_low,
                    pitch_high,
                },
            );
        }
        None
    }
}

} // verus!
