//! A headless score walker: steps the musical clock one instant at a time
//! and reports the active notes, until the song is over.

use vstd::prelude::*;
use crate::score::{actives_spec, last_time, ActiveNote, Score};

verus! {

/// Walks a snapshot of a score instant by instant.
pub struct ScorePlayer {
    score: Score,
    time_b32: u64,
}

impl ScorePlayer {
    pub closed spec fn score_spec(self) -> Score {
        self.score
    }

    pub closed spec fn time_b32_spec(self) -> u64 {
        self.time_b32
    }

    pub open spec fn wf(self) -> bool {
        self.score_spec().wf()
    }

    pub fn create(score: Score) -> (r: ScorePlayer)
        ensures
            r.score_spec() == score,
            r.time_b32_spec() == 0,
    {
        ScorePlayer { score, time_b32: 0 }
    }

    /// Rewinds the walker to the start of the song.
    pub fn reset(&mut self)
        ensures
            final(self).score_spec() == old(self).score_spec(),
            final(self).time_b32_spec() == 0,
    {
        self.time_b32 = 0;
    }

    /// The active notes at the current instant, or `None` once the song is
    /// over; steps the clock either way.
    pub fn next(&mut self) -> (r: Option<Vec<ActiveNote>>)
        requires
            old(self).wf(),
            old(self).time_b32_spec() < u64::MAX,
        ensures
            final(self).score_spec() == old(self).score_spec(),
            final(self).time_b32_spec() == old(self).time_b32_spec() + 1,
            old(self).time_b32_spec() < last_time(old(self).score_spec().notes_seq()) ==> {
                &&& r is Some
                &&& r->Some_0@ == actives_spec(
                    old(self).score_spec().notes_seq(),
                    old(self).time_b32_spec() as int,
                )
            },
            old(self).time_b32_spec() >= last_time(old(self).score_spec().notes_seq()) ==> r
                is None,
    {
        let mut result: Option<Vec<ActiveNote>> = None;
        if self.score.time_within_song(self.time_b32) {
            result = Some(self.score.notes_active_at_time(self.time_b32));
        }
        self.time_b32 += 1;
        result
    }
}

} // verus!
