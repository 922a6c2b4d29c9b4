//! A normalized rectangular selection over the score grid: a half-open time
//! range and an inclusive pitch range.

use vstd::prelude::*;
use crate::pitch::Pitch;

verus! {

/// Time range `[time_point_start_b32, time_point_end_b32)` paired with pitch
/// range `[pitch_low, pitch_high]`, ordered by musical height.
#[derive(Debug, Clone, Copy)]
pub struct SelectionRange {
    pub time_point_start_b32: u64,
    pub time_point_end_b32: u64,
    pub pitch_low: Pitch,
    pub pitch_high: Pitch,
}

impl SelectionRange {
    /// A selection is normalized: low bounds do not exceed high bounds.
    pub open spec fn wf(self) -> bool {
        &&& self.pitch_low.wf()
        &&& self.pitch_high.wf()
        &&& self.time_point_start_b32 <= self.time_point_end_b32
        &&& self.pitch_low.height_spec() <= self.pitch_high.height_spec()
    }
}

} // verus!
