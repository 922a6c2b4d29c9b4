//! The clipboard: either empty or an independent score detached from the
//! live one.

use vstd::prelude::*;
use crate::score::{shifted, Score};

verus! {

/// Clipboard contents. A held score shares no storage with the live score.
#[derive(Debug, Clone)]
pub enum SelectionBuffer {
    Empty,
    Score(Score),
}

impl SelectionBuffer {
    pub open spec fn wf(self) -> bool {
        self matches SelectionBuffer::Score(s) ==> s.wf()
    }

    /// Shifts a held score so its earliest onset lands on
    /// `time_point_start_b32`; an empty buffer stays empty.
    pub fn translate_to(&self, time_point_start_b32: u64) -> (r: SelectionBuffer)
        requires
            self.wf(),
            self matches SelectionBuffer::Score(s) ==> forall|i: int|
                0 <= i < s.notes_seq().len() ==> (#[trigger] s.notes_seq()[i]).onset_b32
                    - crate::score::min_onset(s.notes_seq()) + time_point_start_b32
                    + s.notes_seq()[i].duration_b32 <= u64::MAX,
        ensures
            self is Empty ==> r is Empty,
            self matches SelectionBuffer::Score(s) ==> {
                &&& r matches SelectionBuffer::Score(t)
                &&& t.bpm_spec() == s.bpm_spec()
                &&& t.wf()
                &&& (s.notes_seq().len() == 0 ==> t.notes_seq() == s.notes_seq())
                &&& (s.notes_seq().len() > 0 ==> t.notes_seq() == shifted(
                    s.notes_seq(),
                    time_point_start_b32,
                ))
            },
            r.wf(),
    {
        match self {
            SelectionBuffer::Empty => SelectionBuffer::Empty,
            SelectionBuffer::Score(score) => {
                let translated_score = score.translate(Some(time_point_start_b32));
                SelectionBuffer::Score(translated_score)
            }
        }
    }
}

} // verus!
