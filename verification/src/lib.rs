//! Core of a terminal piano-roll sequencer: pitches, an interval-indexed
//! note store with merge/toggle semantics, a cursor/selection state machine,
//! a two-mark loop region, and a sample-synchronized playback clock.

pub mod pitch;
pub mod selection_range;
pub mod loop_state;
pub mod resolution;
pub mod score;
pub mod cursor;
pub mod player;
pub mod score_viewport;
pub mod selection_buffer;
pub mod score_player;
pub mod song_file;
