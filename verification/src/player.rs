//! The playback engine's state: a sample-tick counter synchronized to the
//! audio rate, the musical clock derived from it, the running set of active
//! notes, and the loop region it honors.

use vstd::prelude::*;
use crate::loop_state::{LoopMode, LoopState};
use crate::score::{note_end, starting_at, all_notes_wf, Note, Score};

verus! {

/// Playback state: `toggle_playback` moves `Playing` to `Paused` and either
/// of the others to `Playing`; `stop` forces `Stopped` and resets the clock.
#[derive(Debug, Clone, Copy, PartialEq, Eq, Structural)]
pub enum PlayState {
    Stopped,
    Playing,
    Paused,
}

/// One clock refresh of the active-note set at instant `t`: notes whose span
/// has run out are dropped and the notes starting at `t` are appended.
pub open spec fn refreshed(active: Seq<Note>, notes: Seq<Note>, t: u64) -> Seq<Note> {
    active.filter(|n: Note| note_end(n) > t) + starting_at(notes, t)
}

/// The clock must snap back to the loop start: looping is in force and the
/// instant `t` has reached the end mark or lies before the start mark.
pub open spec fn loop_snap_due(ls: LoopState, t: int) -> bool {
    &&& ls.mode == LoopMode::Looping
    &&& ls.start_time_b32 is Some
    &&& ls.end_time_b32 is Some
    &&& (t >= ls.end_time_b32->0 || t < ls.start_time_b32->0)
}

/// The playback engine: a clock counted in sample ticks, its musical time,
/// and the notes currently sounding. One `advance` call corresponds to one
/// generated audio sample; the caller turns the active notes into samples.
pub struct Player {
    sample_rate: u64,
    state: PlayState,
    tick: u64,
    time_b32: u64,
    active_notes: Vec<Note>,
    ticks_per_b32: u64,
    loop_state: LoopState,
}

impl Player {
    pub closed spec fn sample_rate_spec(self) -> u64 {
        self.sample_rate
    }

    pub closed spec fn state_spec(self) -> PlayState {
        self.state
    }

    pub closed spec fn tick_spec(self) -> u64 {
        self.tick
    }

    pub closed spec fn time_b32_spec(self) -> u64 {
        self.time_b32
    }

    pub closed spec fn active_notes_spec(self) -> Seq<Note> {
        self.active_notes@
    }

    pub closed spec fn ticks_per_b32_spec(self) -> u64 {
        self.ticks_per_b32
    }

    pub closed spec fn loop_state_spec(self) -> LoopState {
        self.loop_state
    }

    /// The clock divider is positive and the notes in flight are valid.
    pub open spec fn wf(self) -> bool {
        &&& 1 <= self.ticks_per_b32_spec()
        &&& all_notes_wf(self.active_notes_spec())
    }

    /// A stopped player synchronized to the score's tempo: the clock divider
    /// is `sample_rate * 60 / bpm / 32` sample ticks per 32nd note.
    pub fn create(score: &Score, sample_rate: u64) -> (r: Player)
        requires
            1 <= score.bpm_spec(),
            sample_rate <= u64::MAX / 60,
            1 <= sample_rate * 60 / (score.bpm_spec() as int) / 32,
        ensures
            r.wf(),
            r.sample_rate_spec() == sample_rate,
            r.state_spec() == PlayState::Stopped,
            r.tick_spec() == 0,
            r.time_b32_spec() == 0,
            r.active_notes_spec() == Seq::<Note>::empty(),
            r.ticks_per_b32_spec() as int == sample_rate * 60 / (score.bpm_spec() as int) / 32,
            r.loop_state_spec().start_time_b32 is None,
            r.loop_state_spec().end_time_b32 is None,
            r.loop_state_spec().mode == LoopMode::Disabled,
    {
        let ticks_per_b32 = (sample_rate * 60 / (score.bpm() as u64)) / 32;
        let r = Player {
            sample_rate,
            state: PlayState::Stopped,
            tick: 0,
            time_b32: 0,
            active_notes: Vec::new(),
            ticks_per_b32,
            loop_state: LoopState::new(),
        };
        proof {
            assert(r.active_notes_spec() =~= Seq::<Note>::empty());
        }
        r
    }

    pub fn play(&mut self)
        ensures
            final(self).state_spec() == PlayState::Playing,
            final(self).tick_spec() == old(self).tick_spec(),
            final(self).time_b32_spec() == old(self).time_b32_spec(),
            final(self).active_notes_spec() == old(self).active_notes_spec(),
            final(self).sample_rate_spec() == old(self).sample_rate_spec(),
            final(self).ticks_per_b32_spec() == old(self).ticks_per_b32_spec(),
            final(self).loop_state_spec() == old(self).loop_state_spec(),
            old(self).wf() ==> final(self).wf(),
    {
        self.state = PlayState::Playing;
    }

    pub fn pause(&mut self)
        ensures
            final(self).state_spec() == PlayState::Paused,
            final(self).tick_spec() == old(self).tick_spec(),
            final(self).time_b32_spec() == old(self).time_b32_spec(),
            final(self).active_notes_spec() == old(self).active_notes_spec(),
            final(self).sample_rate_spec() == old(self).sample_rate_spec(),
            final(self).ticks_per_b32_spec() == old(self).ticks_per_b32_spec(),
            final(self).loop_state_spec() == old(self).loop_state_spec(),
            old(self).wf() ==> final(self).wf(),
    {
        self.state = PlayState::Paused;
    }

    /// Forces `Stopped`, resets the clock to 0 and clears the active notes.
    pub fn stop(&mut self)
        ensures
            final(self).state_spec() == PlayState::Stopped,
            final(self).time_b32_spec() == 0,
            final(self).tick_spec() == 0,
            final(self).active_notes_spec() == Seq::<Note>::empty(),
            final(self).sample_rate_spec() == old(self).sample_rate_spec(),
            final(self).ticks_per_b32_spec() == old(self).ticks_per_b32_spec(),
            final(self).loop_state_spec() == old(self).loop_state_spec(),
            old(self).wf() ==> final(self).wf(),
    {
        self.state = PlayState::Stopped;
        self.time_b32 = 0;
        self.tick = 0;
        self.active_notes.clear();
        proof {
            assert(self.active_notes_spec() =~= Seq::<Note>::empty());
        }
    }

    /// `Playing` pauses; `Paused` and `Stopped` start playing.
    pub fn toggle_playback(&mut self)
        ensures
            final(self).state_spec() == (if old(self).state_spec() == PlayState::Playing {
                PlayState::Paused
            } else {
                PlayState::Playing
            }),
            final(self).tick_spec() == old(self).tick_spec(),
            final(self).time_b32_spec() == old(self).time_b32_spec(),
            final(self).active_notes_spec() == old(self).active_notes_spec(),
            final(self).sample_rate_spec() == old(self).sample_rate_spec(),
            final(self).ticks_per_b32_spec() == old(self).ticks_per_b32_spec(),
            final(self).loop_state_spec() == old(self).loop_state_spec(),
            old(self).wf() ==> final(self).wf(),
    {
        self.state = match self.state {
            PlayState::Playing => PlayState::Paused,
            PlayState::Paused | PlayState::Stopped => PlayState::Playing,
        }
    }

    pub fn is_playing(&self) -> (r: bool)
        ensures
            r == (self.state_spec() == PlayState::Playing),
    {
        self.state == PlayState::Playing
    }

    /// The output rate this player was synchronized to.
    pub fn sample_rate(&self) -> (r: u64)
        ensures
            r == self.sample_rate_spec(),
    {
        self.sample_rate
    }

    /// The global sample-tick counter; synthesis derives every oscillator's
    /// phase from it, with no per-voice reset.
    pub fn tick(&self) -> (r: u64)
        ensures
            r == self.tick_spec(),
    {
        self.tick
    }

    pub fn current_time_b32(&self) -> (r: u64)
        ensures
            r == self.time_b32_spec(),
    {
        self.time_b32
    }

    /// Pauses, jumps the clock to `time_b32`, and re-derives the active
    /// notes from the score at that instant.
    pub fn set_time_b32(&mut self, time_b32: u64, score: &Score)
        requires
            score.wf(),
        ensures
            final(self).state_spec() == PlayState::Paused,
            final(self).time_b32_spec() == time_b32,
            final(self).tick_spec() == 0,
            final(self).active_notes_spec() == starting_at(score.notes_seq(), time_b32),
            final(self).sample_rate_spec() == old(self).sample_rate_spec(),
            final(self).ticks_per_b32_spec() == old(self).ticks_per_b32_spec(),
            final(self).loop_state_spec() == old(self).loop_state_spec(),
            old(self).wf() ==> final(self).wf(),
    {
        self.pause();
        self.time_b32 = time_b32;
        self.tick = 0;
        self.active_notes.clear();
        proof {
            assert(self.active_notes_spec() =~= Seq::<Note>::empty());
        }
        self.update_active_notes(score);
        proof {
            assert(Seq::<Note>::empty().filter(|n: Note| note_end(n) > time_b32)
                + starting_at(score.notes_seq(), time_b32) =~= starting_at(
                score.notes_seq(),
                time_b32,
            ));
        }
    }

    pub fn set_loop_state(&mut self, loop_state: LoopState)
        ensures
            final(self).loop_state_spec() == loop_state,
            final(self).state_spec() == old(self).state_spec(),
            final(self).tick_spec() == old(self).tick_spec(),
            final(self).time_b32_spec() == old(self).time_b32_spec(),
            final(self).active_notes_spec() == old(self).active_notes_spec(),
            final(self).sample_rate_spec() == old(self).sample_rate_spec(),
            final(self).ticks_per_b32_spec() == old(self).ticks_per_b32_spec(),
            old(self).wf() ==> final(self).wf(),
    {
        self.loop_state = loop_state;
    }

    pub fn state(&self) -> (r: PlayState)
        ensures
            r == self.state_spec(),
    {
        self.state
    }

    /// A borrowed view of the notes currently sounding; the caller
    /// synthesizes the output sample from them.
    pub fn active_notes(&self) -> (r: &Vec<Note>)
        ensures
            r@ == self.active_notes_spec(),
    {
        &self.active_notes
    }

    /// Refreshes the active-note set at the current clock time: finished
    /// notes are dropped, notes starting now are added.
    fn update_active_notes(&mut self, score: &Score)
        requires
            score.wf(),
            all_notes_wf(old(self).active_notes_spec()),
        ensures
            final(self).active_notes_spec() == refreshed(
                old(self).active_notes_spec(),
                score.notes_seq(),
                old(self).time_b32_spec(),
            ),
            all_notes_wf(final(self).active_notes_spec()),
            final(self).state_spec() == old(self).state_spec(),
            final(self).time_b32_spec() == old(self).time_b32_spec(),
            final(self).tick_spec() == old(self).tick_spec(),
            final(self).sample_rate_spec() == old(self).sample_rate_spec(),
            final(self).ticks_per_b32_spec() == old(self).ticks_per_b32_spec(),
            final(self).loop_state_spec() == old(self).loop_state_spec(),
    {
        let ghost a0 = self.active_notes@;
        let t = self.time_b32;
        let mut kept: Vec<Note> = Vec::new();
        let mut i: usize = 0;
        while i < self.active_notes.len()
            invariant
                i <= self.active_notes.len(),
                self == old(self),
                a0 == self.active_notes@,
                all_notes_wf(a0),
                t == self.time_b32_spec(),
                kept@ == a0.take(i as int).filter(|n: Note| note_end(n) > t),
            decreases self.active_notes.len() - i,
        {
            proof {
                assert(a0.take(i as int).push(a0[i as int]) =~= a0.take(i + 1));
                crate::score::lemma_filter_push(
                    a0.take(i as int),
                    |n: Note| note_end(n) > t,
                    a0[i as int],
                );
                assert(crate::score::note_wf(a0[i as int]));
            }
            let n = self.active_notes[i];
            if n.onset_b32 + n.duration_b32 > t {
                kept.push(n);
            }
            i = i + 1;
        }
        proof {
            assert(a0.take(a0.len() as int) =~= a0);
        }
        let mut new_notes = score.notes_starting_at_time(t);
        kept.append(&mut new_notes);
        self.active_notes = kept;
        proof {
            let s1 = self.active_notes@;
            assert forall|k: int| 0 <= k < s1.len() implies crate::score::note_wf(
                #[trigger] s1[k],
            ) by {
                let fpart = a0.filter(|n: Note| note_end(n) > t);
                if k < fpart.len() {
                    assert(fpart.contains(s1[k]));
                    a0.lemma_filter_contains_rev(|n: Note| note_end(n) > t, s1[k]);
                    let j = choose|j: int| 0 <= j < a0.len() && a0[j] == s1[k];
                    assert(crate::score::note_wf(a0[j]));
                } else {
                    let st = starting_at(score.notes_seq(), t);
                    assert(st.contains(s1[k]));
                    score.notes_seq().lemma_filter_contains_rev(
                        |n: Note| n.onset_b32 == t,
                        s1[k],
                    );
                    let j = choose|j: int|
                        0 <= j < score.notes_seq().len() && score.notes_seq()[j] == s1[k];
                    assert(crate::score::note_wf(score.notes_seq()[j]));
                }
            }
        }
    }

    /// One generated audio sample's worth of clock work. While not playing,
    /// nothing changes. Otherwise the sample tick advances; each time it
    /// reaches a multiple of `ticks_per_b32` the musical clock advances by
    /// one: playback stops when the song is over, the clock snaps back to
    /// the loop start when looping demands it (clearing the active notes so
    /// they re-articulate), and the active-note set is refreshed.
    pub fn advance(&mut self, score: &Score)
        requires
            old(self).wf(),
            score.wf(),
            old(self).tick_spec() < u64::MAX,
            old(self).time_b32_spec() < u64::MAX,
        ensures
            final(self).wf(),
            final(self).sample_rate_spec() == old(self).sample_rate_spec(),
            final(self).ticks_per_b32_spec() == old(self).ticks_per_b32_spec(),
            final(self).loop_state_spec() == old(self).loop_state_spec(),
            old(self).state_spec() != PlayState::Playing ==> *final(self) == *old(self),
            old(self).state_spec() == PlayState::Playing && (old(self).tick_spec() + 1) % (
            old(self).ticks_per_b32_spec() as int) != 0 ==> {
                &&& final(self).state_spec() == PlayState::Playing
                &&& final(self).tick_spec() == old(self).tick_spec() + 1
                &&& final(self).time_b32_spec() == old(self).time_b32_spec()
                &&& final(self).active_notes_spec() == old(self).active_notes_spec()
            },
            old(self).state_spec() == PlayState::Playing && (old(self).tick_spec() + 1) % (
            old(self).ticks_per_b32_spec() as int) == 0 ==> {
                let t1 = (old(self).time_b32_spec() + 1) as u64;
                let ls = old(self).loop_state_spec();
                &&& (t1 >= crate::score::last_time(score.notes_seq()) ==> {
                    &&& final(self).state_spec() == PlayState::Stopped
                    &&& final(self).time_b32_spec() == 0
                    &&& final(self).tick_spec() == 0
                    &&& final(self).active_notes_spec() == Seq::<Note>::empty()
                })
                &&& (t1 < crate::score::last_time(score.notes_seq()) && loop_snap_due(
                    ls,
                    t1 as int,
                ) ==> {
                    &&& final(self).state_spec() == PlayState::Playing
                    &&& final(self).time_b32_spec() == ls.start_time_b32->0
                    &&& final(self).tick_spec() == 0
                    &&& final(self).active_notes_spec() == starting_at(
                        score.notes_seq(),
                        ls.start_time_b32->0,
                    )
                })
                &&& (t1 < crate::score::last_time(score.notes_seq()) && !loop_snap_due(
                    ls,
                    t1 as int,
                ) ==> {
                    &&& final(self).state_spec() == PlayState::Playing
                    &&& final(self).time_b32_spec() == t1
                    &&& final(self).tick_spec() == old(self).tick_spec() + 1
                    &&& final(self).active_notes_spec() == refreshed(
                        old(self).active_notes_spec(),
                        score.notes_seq(),
                        t1,
                    )
                })
            },
    {
        if self.state != PlayState::Playing {
            return;
        }
        self.tick += 1;
        if self.tick % self.ticks_per_b32 == 0 {
            self.time_b32 += 1;
            if !score.time_within_song(self.time_b32) {
                self.stop();
                return;
            }
            if self.loop_state.is_looping() {
                let looping_start = match self.loop_state.start_time_b32 {
                    Some(start) => start,
                    None => 0,
                };
                let looping_end = match self.loop_state.end_time_b32 {
                    Some(end) => end,
                    None => 0,
                };
                if self.time_b32 >= looping_end || self.time_b32 < looping_start {
                    self.time_b32 = looping_start;
                    self.tick = 0;
                    self.active_notes.clear();
                    self.update_active_notes(score);
                    proof {
                        assert(Seq::<Note>::empty().filter(
                            |n: Note| note_end(n) > looping_start,
                        ) + starting_at(score.notes_seq(), looping_start) =~= starting_at(
                            score.notes_seq(),
                            looping_start,
                        ));
                    }
                    return;
                }
            }
            self.update_active_notes(score);
        }
    }
}

} // verus!
