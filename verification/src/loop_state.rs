//! Loop region state: two marked times filled in by a two-slot protocol, and
//! a mode flag that turns looping on or off.

use vstd::prelude::*;

verus! {

/// Whether loop playback is enabled.
#[derive(Debug, Clone, Copy, PartialEq, Eq, Structural)]
pub enum LoopMode {
    Disabled,
    Looping,
}

/// A loop region under construction or in use. `start_time_b32` and
/// `end_time_b32` fill in through `mark`; playback wraps only while
/// `is_looping()` holds.
#[derive(Debug, Clone, Copy)]
pub struct LoopState {
    pub start_time_b32: Option<u64>,
    pub end_time_b32: Option<u64>,
    pub mode: LoopMode,
}

impl LoopState {
    /// A marked region fills in start-first and is ordered: an end mark
    /// implies a start mark at or before it.
    pub open spec fn wf(self) -> bool {
        self.end_time_b32 is Some ==> (self.start_time_b32 is Some && self.start_time_b32->0
            <= self.end_time_b32->0)
    }

    pub fn new() -> (r: Self)
        ensures
            r.start_time_b32 is None,
            r.end_time_b32 is None,
            r.mode == LoopMode::Disabled,
            r.wf(),
    {
        Self { start_time_b32: None, end_time_b32: None, mode: LoopMode::Disabled }
    }

    /// Advances the two-slot fill protocol: the first mark sets the start; the
    /// second sets the end, swapping if it falls before the start; a third
    /// mark discards the region and starts over.
    pub fn mark(&self, time_b32: u64) -> (r: Self)
        ensures
            r.mode == self.mode,
            self.start_time_b32 is None ==> r == (Self {
                start_time_b32: Some(time_b32),
                ..*self
            }),
            self.start_time_b32 is Some && self.end_time_b32 is None ==> r == (Self {
                start_time_b32: if time_b32 < self.start_time_b32->0 {
                    Some(time_b32)
                } else {
                    self.start_time_b32
                },
                end_time_b32: if time_b32 < self.start_time_b32->0 {
                    self.start_time_b32
                } else {
                    Some(time_b32)
                },
                mode: self.mode,
            }),
            self.start_time_b32 is Some && self.end_time_b32 is Some ==> r == (Self {
                start_time_b32: Some(time_b32),
                end_time_b32: None,
                mode: self.mode,
            }),
            self.wf() ==> r.wf(),
    {
        let mut new_state = *self;
        match (new_state.start_time_b32, new_state.end_time_b32) {
            (None, _) => {
                new_state.start_time_b32 = Some(time_b32);
            }
            (Some(start), None) => {
                if time_b32 < start {
                    new_state.end_time_b32 = new_state.start_time_b32;
                    new_state.start_time_b32 = Some(time_b32);
                } else {
                    new_state.end_time_b32 = Some(time_b32);
                }
            }
            (Some(_), Some(_)) => {
                new_state.start_time_b32 = Some(time_b32);
                new_state.end_time_b32 = None;
            }
        }
        new_state
    }

    pub fn set_mode(&self, mode: LoopMode) -> (r: Self)
        ensures
            r == (Self { mode, ..*self }),
    {
        let mut new_state = *self;
        new_state.mode = mode;
        new_state
    }

    /// Flips `Disabled` and `Looping`, leaving the marks alone.
    pub fn toggle_mode(&self) -> (r: Self)
        ensures
            r.start_time_b32 == self.start_time_b32,
            r.end_time_b32 == self.end_time_b32,
            r.mode == (if self.mode == LoopMode::Disabled {
                LoopMode::Looping
            } else {
                LoopMode::Disabled
            }),
    {
        let mut new_state = *self;
        new_state.mode = match new_state.mode {
            LoopMode::Disabled => LoopMode::Looping,
            LoopMode::Looping => LoopMode::Disabled,
        };
        new_state
    }

    pub fn clear(&self) -> (r: Self)
        ensures
            r.start_time_b32 is None,
            r.end_time_b32 is None,
            r.mode == LoopMode::Disabled,
    {
        Self::new()
    }

    /// Loop playback is in force only when the mode says so and both marks
    /// are filled in.
    pub fn is_looping(&self) -> (r: bool)
        ensures
            r == (self.mode == LoopMode::Looping && self.start_time_b32 is Some
                && self.end_time_b32 is Some),
    {
        self.mode == LoopMode::Looping && self.start_time_b32.is_some() && self.end_time_b32.is_some()
    }
}

} // verus!
