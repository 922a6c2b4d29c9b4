//! The note store: notes anchored at onsets measured in 32nd-note units
//! ("b32"), with toggle and merge insertion, selection editing, translation,
//! and a derived per-instant active-note view.

use vstd::prelude::*;
use vstd::seq_lib::*;
use crate::pitch::Pitch;
use crate::selection_range::SelectionRange;

verus! {

/// One note: a pitch sounding over `[onset_b32, onset_b32 + duration_b32)`.
#[derive(Debug, Clone, Copy, PartialEq, Eq, Structural)]
pub struct Note {
    pub pitch: Pitch,
    pub onset_b32: u64,
    pub duration_b32: u64,
}

/// The position of an instant within a note's span.
#[derive(Debug, Clone, Copy, PartialEq, Eq, Structural)]
pub enum NoteState {
    Onset,
    Sustain,
    Release,
}

/// A note paired with its phase at a particular instant.
#[derive(Debug, Clone)]
pub struct ActiveNote {
    pub note: Note,
    pub state: NoteState,
}

/// The first instant after a note's span.
pub open spec fn note_end(n: Note) -> int {
    n.onset_b32 + n.duration_b32
}

/// A note is valid when its pitch is valid, it lasts at least one instant,
/// and its end does not overflow the time type.
pub open spec fn note_wf(n: Note) -> bool {
    &&& n.pitch.wf()
    &&& 1 <= n.duration_b32
    &&& note_end(n) <= u64::MAX
}

/// Two notes occupy the same slot when they share pitch and onset.
pub open spec fn same_slot(a: Note, b: Note) -> bool {
    a.pitch == b.pitch && a.onset_b32 == b.onset_b32
}

/// Every note of `s` is valid.
pub open spec fn all_notes_wf(s: Seq<Note>) -> bool {
    forall|i: int| 0 <= i < s.len() ==> note_wf(#[trigger] s[i])
}

/// No two notes of `s` share a slot; in particular `s` has no duplicates.
pub open spec fn slots_unique(s: Seq<Note>) -> bool {
    forall|i: int, j: int|
        0 <= i < j < s.len() ==> !same_slot(#[trigger] s[i], #[trigger] s[j])
}

/// The note's span covers the instant `t`.
pub open spec fn covers(n: Note, t: int) -> bool {
    n.onset_b32 <= t < note_end(n)
}

/// Phase of instant `t` within note `n`: `Onset` at the first instant (which
/// wins over `Release` when the note lasts a single instant), `Release` at
/// the last, `Sustain` in between.
pub open spec fn phase_at(n: Note, t: int) -> NoteState {
    if t == n.onset_b32 {
        NoteState::Onset
    } else if t == note_end(n) - 1 {
        NoteState::Release
    } else {
        NoteState::Sustain
    }
}

/// The active-note entry that note `n` contributes at instant `t`.
pub open spec fn active_note_at(n: Note, t: int) -> ActiveNote {
    ActiveNote { note: n, state: phase_at(n, t) }
}

/// The note lies inside the selection: its onset in the half-open time range
/// and its pitch inside the inclusive height range.
pub open spec fn in_selection(n: Note, sel: SelectionRange) -> bool {
    &&& sel.time_point_start_b32 <= n.onset_b32 < sel.time_point_end_b32
    &&& sel.pitch_low.height_spec() <= n.pitch.height_spec() <= sel.pitch_high.height_spec()
}

/// The note's span strictly intersects the span `[onset, end)` of pitch `p`;
/// merely adjacent spans do not intersect.
pub open spec fn overlaps_span(n: Note, p: Pitch, onset: int, end: int) -> bool {
    n.pitch == p && n.onset_b32 < end && onset < note_end(n)
}

/// The notes of `s` starting exactly at `t`, in storage order.
pub open spec fn starting_at(s: Seq<Note>, t: u64) -> Seq<Note> {
    s.filter(|n: Note| n.onset_b32 == t)
}

/// `s` without every note in slot `(p, o)`.
pub open spec fn without_slot(s: Seq<Note>, p: Pitch, o: u64) -> Seq<Note> {
    s.filter(|n: Note| !(n.pitch == p && n.onset_b32 == o))
}

/// `s` without every note of pitch `p` strictly intersecting `[onset, end)`.
pub open spec fn without_overlapping(s: Seq<Note>, p: Pitch, onset: int, end: int) -> Seq<Note> {
    s.filter(|n: Note| !overlaps_span(n, p, onset, end))
}

/// The notes of `s` outside the selection, in storage order.
pub open spec fn kept_outside(s: Seq<Note>, sel: SelectionRange) -> Seq<Note> {
    s.filter(|n: Note| !in_selection(n, sel))
}

/// The notes of `s` inside the selection, in storage order.
pub open spec fn selected(s: Seq<Note>, sel: SelectionRange) -> Seq<Note> {
    s.filter(|n: Note| in_selection(n, sel))
}

/// The notes of `s` whose span covers `t`, in storage order.
pub open spec fn covering(s: Seq<Note>, t: int) -> Seq<Note> {
    s.filter(|n: Note| covers(n, t))
}

/// The derived active-note view of `s` at instant `t`.
pub open spec fn actives_spec(s: Seq<Note>, t: int) -> Seq<ActiveNote> {
    covering(s, t).map_values(|n: Note| active_note_at(n, t))
}

/// The note starts strictly after `cur`; every note does when `cur` is
/// `None`.
pub open spec fn after_cur(n: Note, cur: Option<u64>) -> bool {
    match cur {
        Option::None => true,
        Option::Some(c) => n.onset_b32 > c,
    }
}

/// The notes of `s` whose onset lies strictly after `cur` (all of them when
/// `cur` is `None`), in storage order.
pub open spec fn notes_after(s: Seq<Note>, cur: Option<u64>) -> Seq<Note>
    decreases s.len(),
{
    if s.len() == 0 {
        Seq::empty()
    } else {
        let rest = notes_after(s.drop_last(), cur);
        if after_cur(s.last(), cur) {
            rest.push(s.last())
        } else {
            rest
        }
    }
}

/// Every note that `notes_after` keeps starts after `cur` and comes from
/// `s`.
pub proof fn lemma_notes_after_elems(s: Seq<Note>, cur: Option<u64>)
    ensures
        forall|i: int|
            0 <= i < notes_after(s, cur).len() ==> after_cur(
                #[trigger] notes_after(s, cur)[i],
                cur,
            ) && s.contains(notes_after(s, cur)[i]),
        notes_after(s, cur).len() <= s.len(),
    decreases s.len(),
{
    if s.len() > 0 {
        let rest = s.drop_last();
        lemma_notes_after_elems(rest, cur);
        assert(forall|j: int| 0 <= j < rest.len() ==> rest[j] == s[j]);
        assert forall|i: int| 0 <= i < notes_after(s, cur).len() implies after_cur(
            #[trigger] notes_after(s, cur)[i],
            cur,
        ) && s.contains(notes_after(s, cur)[i]) by {
            let f = notes_after(s, cur);
            if after_cur(s.last(), cur) && i == f.len() - 1 {
                assert(f[i] == s[s.len() - 1]);
            } else {
                assert(f[i] == notes_after(rest, cur)[i]);
                assert(rest.contains(f[i]));
                let j = choose|j: int| 0 <= j < rest.len() && rest[j] == f[i];
                assert(s[j] == f[i]);
            }
        }
    }
}

/// Raising the bound keeps `notes_after` no longer.
pub proof fn lemma_notes_after_mono(s: Seq<Note>, cur: Option<u64>, m: u64)
    requires
        cur matches Some(c) ==> c <= m,
    ensures
        notes_after(s, Some(m)).len() <= notes_after(s, cur).len(),
    decreases s.len(),
{
    if s.len() > 0 {
        lemma_notes_after_mono(s.drop_last(), cur, m);
    }
}

/// Raising the bound past some kept note strictly shrinks `notes_after`.
pub proof fn lemma_notes_after_strict(s: Seq<Note>, cur: Option<u64>, m: u64, j: int)
    requires
        cur matches Some(c) ==> c <= m,
        0 <= j < s.len(),
        after_cur(s[j], cur),
        s[j].onset_b32 <= m,
    ensures
        notes_after(s, Some(m)).len() < notes_after(s, cur).len(),
    decreases s.len(),
{
    let rest = s.drop_last();
    if j == s.len() - 1 {
        lemma_notes_after_mono(rest, cur, m);
    } else {
        assert(rest[j] == s[j]);
        lemma_notes_after_strict(rest, cur, m, j);
    }
}

/// Without a bound, `notes_after` keeps everything.
pub proof fn lemma_notes_after_none(s: Seq<Note>)
    ensures
        notes_after(s, Option::None) == s,
    decreases s.len(),
{
    if s.len() > 0 {
        lemma_notes_after_none(s.drop_last());
        assert(s.drop_last().push(s.last()) =~= s);
    }
}

/// Some note of `s` sits in slot `(p, o)`.
pub open spec fn has_note_at(s: Seq<Note>, p: Pitch, o: u64) -> bool {
    exists|i: int| 0 <= i < s.len() && same_slot(#[trigger] s[i], Note { pitch: p, onset_b32: o, duration_b32: 1 })
}

/// The toggle step of `insert_or_remove`: remove the note in slot `(p, o)`
/// if one exists, otherwise append a fresh note of duration `d`.
pub open spec fn toggle_spec(s: Seq<Note>, p: Pitch, o: u64, d: u64) -> Seq<Note> {
    if has_note_at(s, p, o) {
        without_slot(s, p, o)
    } else {
        s.push(Note { pitch: p, onset_b32: o, duration_b32: d })
    }
}

/// Smallest onset among `s` (0 when `s` is empty).
pub open spec fn min_onset(s: Seq<Note>) -> int
    decreases s.len(),
{
    if s.len() == 0 {
        0
    } else if s.len() == 1 {
        s[0].onset_b32 as int
    } else {
        let rest = min_onset(s.drop_last());
        if (s.last().onset_b32 as int) < rest {
            s.last().onset_b32 as int
        } else {
            rest
        }
    }
}

/// Largest note end among `s` (0 when `s` is empty): the first instant past
/// the end of the song.
pub open spec fn last_time(s: Seq<Note>) -> int
    decreases s.len(),
{
    if s.len() == 0 {
        0
    } else {
        let rest = last_time(s.drop_last());
        if note_end(s.last()) > rest {
            note_end(s.last())
        } else {
            rest
        }
    }
}

/// Onset of the note produced by merge insertion of span `[onset, end)` at
/// pitch `p`: the smallest onset among `onset` and the onsets of the
/// strictly intersecting notes of pitch `p`.
pub open spec fn merged_onset(s: Seq<Note>, p: Pitch, onset: int, end: int) -> int
    decreases s.len(),
{
    if s.len() == 0 {
        onset
    } else {
        let rest = merged_onset(s.drop_last(), p, onset, end);
        if overlaps_span(s.last(), p, onset, end) && (s.last().onset_b32 as int) < rest {
            s.last().onset_b32 as int
        } else {
            rest
        }
    }
}

/// End of the note produced by merge insertion of span `[onset, end)` at
/// pitch `p`: the largest end among `end` and the ends of the strictly
/// intersecting notes of pitch `p`.
pub open spec fn merged_end(s: Seq<Note>, p: Pitch, onset: int, end: int) -> int
    decreases s.len(),
{
    if s.len() == 0 {
        end
    } else {
        let rest = merged_end(s.drop_last(), p, onset, end);
        if overlaps_span(s.last(), p, onset, end) && note_end(s.last()) > rest {
            note_end(s.last())
        } else {
            rest
        }
    }
}

/// The note produced by merge insertion of span `[onset, end)` at pitch `p`.
pub open spec fn merged_note(s: Seq<Note>, p: Pitch, onset: int, end: int) -> Note {
    Note {
        pitch: p,
        onset_b32: merged_onset(s, p, onset, end) as u64,
        duration_b32: (merged_end(s, p, onset, end) - merged_onset(s, p, onset, end)) as u64,
    }
}

/// The merge-insertion step of `insert`: drop every note of pitch `p`
/// strictly intersecting `[onset, end)` and append one note spanning the
/// union of their spans with `[onset, end)`.
pub open spec fn merge_note_spec(s: Seq<Note>, p: Pitch, onset: int, end: int) -> Seq<Note> {
    without_overlapping(s, p, onset, end).push(merged_note(s, p, onset, end))
}

/// `merge_down` overlays the notes of `others` onto `s` one at a time, in
/// storage order, each by merge insertion.
pub open spec fn merge_down_spec(s: Seq<Note>, others: Seq<Note>) -> Seq<Note>
    decreases others.len(),
{
    if others.len() == 0 {
        s
    } else {
        let prev = merge_down_spec(s, others.drop_last());
        let n = others.last();
        merge_note_spec(prev, n.pitch, n.onset_b32 as int, note_end(n))
    }
}

/// Every note of `s` shifted so that onsets move by `t - min_onset(s)`.
pub open spec fn shifted(s: Seq<Note>, t: u64) -> Seq<Note> {
    s.map_values(
        |n: Note| Note {
            pitch: n.pitch,
            onset_b32: (n.onset_b32 - min_onset(s) + t) as u64,
            duration_b32: n.duration_b32,
        },
    )
}

// ------------------------------------------------------------------
// Helper lemmas about filtering
// ------------------------------------------------------------------

/// Filtering a sequence extended by one element keeps the filtered prefix
/// and appends the element exactly when it satisfies the predicate.
pub proof fn lemma_filter_push<A>(s: Seq<A>, pred: spec_fn(A) -> bool, e: A)
    ensures
        s.push(e).filter(pred) == (if pred(e) {
            s.filter(pred).push(e)
        } else {
            s.filter(pred)
        }),
{
    reveal(Seq::filter);
    assert(s.push(e).drop_last() =~= s);
    assert(s.push(e).last() == e);
}

/// A filter whose predicate holds everywhere is the identity.
pub proof fn lemma_filter_all<A>(s: Seq<A>, pred: spec_fn(A) -> bool)
    requires
        forall|i: int| 0 <= i < s.len() ==> pred(#[trigger] s[i]),
    ensures
        s.filter(pred) == s,
    decreases s.len(),
{
    reveal(Seq::filter);
    if s.len() == 0 {
        assert(s.filter(pred) =~= s);
    } else {
        lemma_filter_all(s.drop_last(), pred);
        assert(pred(s.last()));
        assert(s.drop_last().push(s.last()) =~= s);
    }
}

/// Filtering preserves validity and slot uniqueness.
pub proof fn lemma_filter_keeps_wf(s: Seq<Note>, pred: spec_fn(Note) -> bool)
    requires
        all_notes_wf(s),
        slots_unique(s),
    ensures
        all_notes_wf(s.filter(pred)),
        slots_unique(s.filter(pred)),
    decreases s.len(),
{
    reveal(Seq::filter);
    if s.len() == 0 {
    } else {
        let rest = s.drop_last();
        assert(all_notes_wf(rest) && slots_unique(rest)) by {
            assert(forall|i: int| 0 <= i < rest.len() ==> rest[i] == s[i]);
        }
        lemma_filter_keeps_wf(rest, pred);
        if pred(s.last()) {
            let out = rest.filter(pred).push(s.last());
            assert forall|i: int, j: int| 0 <= i < j < out.len() implies !same_slot(
                #[trigger] out[i],
                #[trigger] out[j],
            ) by {
                if j == out.len() - 1 {
                    // out[i] comes from rest, which excludes the last slot
                    assert(rest.filter(pred).contains(out[i]));
                    rest.lemma_filter_contains_rev(pred, out[i]);
                    let k = choose|k: int| 0 <= k < rest.len() && rest[k] == out[i];
                    assert(rest[k] == s[k]);
                    assert(!same_slot(s[k], s[s.len() - 1]));
                }
            }
            assert forall|i: int| 0 <= i < out.len() implies note_wf(#[trigger] out[i]) by {
                if i < out.len() - 1 {
                    assert(rest.filter(pred).contains(out[i]));
                    rest.lemma_filter_contains_rev(pred, out[i]);
                    let k = choose|k: int| 0 <= k < rest.len() && rest[k] == out[i];
                    assert(note_wf(s[k]));
                }
            }
        } else {
            let out = rest.filter(pred);
            assert forall|i: int| 0 <= i < out.len() implies note_wf(#[trigger] out[i]) by {
                assert(out.contains(out[i]));
                rest.lemma_filter_contains_rev(pred, out[i]);
                let k = choose|k: int| 0 <= k < rest.len() && rest[k] == out[i];
                assert(note_wf(s[k]));
            }
        }
    }
}

// ------------------------------------------------------------------
// Lemmas about the extremal spec functions
// ------------------------------------------------------------------

/// `min_onset` is a lower bound attained by some note.
pub proof fn lemma_min_onset_props(s: Seq<Note>)
    requires
        s.len() > 0,
    ensures
        forall|i: int| 0 <= i < s.len() ==> min_onset(s) <= (#[trigger] s[i]).onset_b32,
        exists|i: int| 0 <= i < s.len() && (#[trigger] s[i]).onset_b32 == min_onset(s),
    decreases s.len(),
{
    if s.len() == 1 {
        assert(s[0].onset_b32 == min_onset(s));
    } else {
        let rest = s.drop_last();
        lemma_min_onset_props(rest);
        assert(forall|i: int| 0 <= i < rest.len() ==> rest[i] == s[i]);
        if (s.last().onset_b32 as int) < min_onset(rest) {
            assert(s[s.len() - 1].onset_b32 == min_onset(s));
        } else {
            let k = choose|k: int| 0 <= k < rest.len() && (#[trigger] rest[k]).onset_b32 == min_onset(rest);
            assert(s[k].onset_b32 == min_onset(s));
        }
    }
}

/// `last_time` bounds every note end from above, and equals some note's end
/// whenever it is positive.
pub proof fn lemma_last_time_props(s: Seq<Note>)
    ensures
        forall|i: int| 0 <= i < s.len() ==> note_end(#[trigger] s[i]) <= last_time(s),
        last_time(s) == 0 || exists|i: int|
            0 <= i < s.len() && note_end(#[trigger] s[i]) == last_time(s),
        last_time(s) >= 0,
    decreases s.len(),
{
    if s.len() == 0 {
    } else {
        let rest = s.drop_last();
        lemma_last_time_props(rest);
        assert(forall|i: int| 0 <= i < rest.len() ==> rest[i] == s[i]);
        if note_end(s.last()) > last_time(rest) {
            assert(note_end(s[s.len() - 1]) == last_time(s));
        } else if last_time(rest) != 0 {
            let k = choose|k: int| 0 <= k < rest.len() && note_end(#[trigger] rest[k]) == last_time(rest);
            assert(note_end(s[k]) == last_time(s));
        }
    }
}

/// An instant lies within the song exactly when some note's span ends after
/// it.
pub proof fn lemma_time_within_song_iff(s: Seq<Note>, t: u64)
    ensures
        (t < last_time(s)) <==> exists|i: int| 0 <= i < s.len() && note_end(#[trigger] s[i]) > t,
{
    lemma_last_time_props(s);
    if t < last_time(s) {
        let k = choose|k: int| 0 <= k < s.len() && note_end(#[trigger] s[k]) == last_time(s);
        assert(note_end(s[k]) > t);
    }
}

/// The merged onset never exceeds the inserted onset, bounds every
/// intersecting note's onset from below, and is one of those onsets or the
/// inserted onset itself.
pub proof fn lemma_merged_onset_props(s: Seq<Note>, p: Pitch, onset: int, end: int)
    ensures
        merged_onset(s, p, onset, end) <= onset,
        forall|i: int|
            0 <= i < s.len() && overlaps_span(#[trigger] s[i], p, onset, end) ==> merged_onset(
                s,
                p,
                onset,
                end,
            ) <= s[i].onset_b32,
        merged_onset(s, p, onset, end) == onset || exists|i: int|
            0 <= i < s.len() && overlaps_span(#[trigger] s[i], p, onset, end)
                && s[i].onset_b32 == merged_onset(s, p, onset, end),
    decreases s.len(),
{
    if s.len() == 0 {
    } else {
        let rest = s.drop_last();
        lemma_merged_onset_props(rest, p, onset, end);
        assert(forall|i: int| 0 <= i < rest.len() ==> rest[i] == s[i]);
        let m = merged_onset(s, p, onset, end);
        if overlaps_span(s.last(), p, onset, end) && (s.last().onset_b32 as int) < merged_onset(
            rest,
            p,
            onset,
            end,
        ) {
            assert(s[s.len() - 1].onset_b32 == m);
        } else if merged_onset(rest, p, onset, end) != onset {
            let k = choose|k: int|
                0 <= k < rest.len() && overlaps_span(#[trigger] rest[k], p, onset, end)
                    && rest[k].onset_b32 == merged_onset(rest, p, onset, end);
            assert(s[k].onset_b32 == m);
        }
    }
}

/// The merged end never falls short of the inserted end, bounds every
/// intersecting note's end from above, and is one of those ends or the
/// inserted end itself.
pub proof fn lemma_merged_end_props(s: Seq<Note>, p: Pitch, onset: int, end: int)
    ensures
        merged_end(s, p, onset, end) >= end,
        forall|i: int|
            0 <= i < s.len() && overlaps_span(#[trigger] s[i], p, onset, end) ==> merged_end(
                s,
                p,
                onset,
                end,
            ) >= note_end(s[i]),
        merged_end(s, p, onset, end) == end || exists|i: int|
            0 <= i < s.len() && overlaps_span(#[trigger] s[i], p, onset, end) && note_end(s[i])
                == merged_end(s, p, onset, end),
    decreases s.len(),
{
    if s.len() == 0 {
    } else {
        let rest = s.drop_last();
        lemma_merged_end_props(rest, p, onset, end);
        assert(forall|i: int| 0 <= i < rest.len() ==> rest[i] == s[i]);
        let m = merged_end(s, p, onset, end);
        if overlaps_span(s.last(), p, onset, end) && note_end(s.last()) > merged_end(
            rest,
            p,
            onset,
            end,
        ) {
            assert(note_end(s[s.len() - 1]) == m);
        } else if merged_end(rest, p, onset, end) != end {
            let k = choose|k: int|
                0 <= k < rest.len() && overlaps_span(#[trigger] rest[k], p, onset, end)
                    && note_end(rest[k]) == merged_end(rest, p, onset, end);
            assert(note_end(s[k]) == m);
        }
    }
}

// ------------------------------------------------------------------
// Laws of the note algebra
// ------------------------------------------------------------------

/// Toggle insertion is an involution on the note set: toggling twice with
/// identical arguments restores exactly the notes that were there before,
/// provided any note already in that slot has the toggled duration.
pub proof fn lemma_insert_or_remove_involution(s: Seq<Note>, p: Pitch, o: u64, d: u64)
    requires
        slots_unique(s),
        forall|i: int|
            0 <= i < s.len() && same_slot(#[trigger] s[i], Note { pitch: p, onset_b32: o, duration_b32: 1 })
                ==> s[i].duration_b32 == d,
    ensures
        forall|n: Note| #[trigger]
            toggle_spec(toggle_spec(s, p, o, d), p, o, d).contains(n) <==> s.contains(n),
{
    let m = Note { pitch: p, onset_b32: o, duration_b32: d };
    let pred = |n: Note| !(n.pitch == p && n.onset_b32 == o);
    if has_note_at(s, p, o) {
        let t1 = without_slot(s, p, o);
        assert(!has_note_at(t1, p, o)) by {
            if has_note_at(t1, p, o) {
                let i = choose|i: int|
                    0 <= i < t1.len() && same_slot(
                        #[trigger] t1[i],
                        Note { pitch: p, onset_b32: o, duration_b32: 1 },
                    );
                s.lemma_filter_pred(pred, i);
                assert(false);
            }
        }
        let t2 = toggle_spec(t1, p, o, d);
        assert(t2 == t1.push(m));
        assert forall|n: Note| #[trigger] t2.contains(n) implies s.contains(n) by {
            let i = choose|i: int| 0 <= i < t2.len() && t2[i] == n;
            if i < t1.len() {
                assert(t1.contains(n));
                s.lemma_filter_contains_rev(pred, n);
            } else {
                // n is the re-inserted note; the slot's original holder had
                // duration d, so it was this very note
                let w = choose|w: int|
                    0 <= w < s.len() && same_slot(
                        #[trigger] s[w],
                        Note { pitch: p, onset_b32: o, duration_b32: 1 },
                    );
                assert(s[w] == m);
                assert(s.contains(s[w]));
            }
        }
        assert forall|n: Note| s.contains(n) implies #[trigger] t2.contains(n) by {
            let j = choose|j: int| 0 <= j < s.len() && s[j] == n;
            if n.pitch == p && n.onset_b32 == o {
                assert(n.duration_b32 == d);
                assert(t2[t2.len() - 1] == n);
            } else {
                s.lemma_filter_contains(pred, j);
                let k = choose|k: int| 0 <= k < t1.len() && t1[k] == n;
                assert(t2[k] == n);
            }
        }
    } else {
        let t1 = s.push(m);
        assert(has_note_at(t1, p, o)) by {
            assert(same_slot(t1[t1.len() - 1], Note { pitch: p, onset_b32: o, duration_b32: 1 }));
        }
        let t2 = toggle_spec(t1, p, o, d);
        assert(t2 == without_slot(t1, p, o));
        lemma_filter_push(s, pred, m);
        assert(forall|i: int| 0 <= i < s.len() ==> pred(#[trigger] s[i])) by {
            assert forall|i: int| 0 <= i < s.len() implies pred(s[i]) by {
                if !pred(s[i]) {
                    assert(same_slot(s[i], Note { pitch: p, onset_b32: o, duration_b32: 1 }));
                    assert(has_note_at(s, p, o));
                }
            }
        }
        lemma_filter_all(s, pred);
        assert(t2 == s);
    }
}

/// Merge insertion of two strictly overlapping notes of one pitch, into a
/// score holding no note of that pitch, yields exactly one new note
/// spanning the union of the two spans.
pub proof fn lemma_insert_merges_overlapping(
    s: Seq<Note>,
    p: Pitch,
    o1: u64,
    d1: u64,
    o2: u64,
    d2: u64,
)
    requires
        forall|i: int| 0 <= i < s.len() ==> (#[trigger] s[i]).pitch != p,
        1 <= d1,
        1 <= d2,
        o1 + d1 <= u64::MAX,
        o2 + d2 <= u64::MAX,
        o1 < o2 + d2,
        o2 < o1 + d1,
    ensures
        merge_note_spec(merge_note_spec(s, p, o1 as int, o1 + d1), p, o2 as int, o2 + d2)
            == s.push(
            Note {
                pitch: p,
                onset_b32: if o1 <= o2 {
                    o1
                } else {
                    o2
                },
                duration_b32: ((if o1 + d1 >= o2 + d2 {
                    o1 + d1
                } else {
                    o2 + d2
                }) - (if o1 <= o2 {
                    o1
                } else {
                    o2
                })) as u64,
            },
        ),
{
    let e1 = o1 + d1;
    let e2 = o2 + d2;
    let pred1 = |n: Note| !overlaps_span(n, p, o1 as int, e1 as int);
    let pred2 = |n: Note| !overlaps_span(n, p, o2 as int, e2 as int);
    lemma_filter_all(s, pred1);
    lemma_merged_onset_props(s, p, o1 as int, e1 as int);
    lemma_merged_end_props(s, p, o1 as int, e1 as int);
    assert(merged_onset(s, p, o1 as int, e1 as int) == o1);
    assert(merged_end(s, p, o1 as int, e1 as int) == e1);
    let m1 = Note { pitch: p, onset_b32: o1, duration_b32: d1 };
    let t1 = merge_note_spec(s, p, o1 as int, e1 as int);
    assert(t1 == s.push(m1));
    lemma_filter_all(s, pred2);
    lemma_filter_push(s, pred2, m1);
    assert(overlaps_span(m1, p, o2 as int, e2 as int));
    assert(without_overlapping(t1, p, o2 as int, e2 as int) == s);
    lemma_merged_onset_props(s, p, o2 as int, e2 as int);
    lemma_merged_end_props(s, p, o2 as int, e2 as int);
    assert(merged_onset(s, p, o2 as int, e2 as int) == o2);
    assert(merged_end(s, p, o2 as int, e2 as int) == e2);
    assert(t1.drop_last() =~= s);
    assert(t1.last() == m1);
    assert(merged_onset(t1, p, o2 as int, e2 as int) == if o1 <= o2 {
        o1 as int
    } else {
        o2 as int
    });
    assert(merged_end(t1, p, o2 as int, e2 as int) == if e1 >= e2 {
        e1 as int
    } else {
        e2 as int
    });
}

/// The notes picked out by a selection are a subset of the source, and each
/// of them lies inside the selection's bounds.
pub proof fn lemma_clone_at_selection_subset(s: Seq<Note>, sel: SelectionRange)
    ensures
        forall|n: Note| #[trigger]
            selected(s, sel).contains(n) ==> s.contains(n) && in_selection(n, sel),
{
    let pred = |n: Note| in_selection(n, sel);
    assert forall|n: Note| #[trigger] selected(s, sel).contains(n) implies s.contains(n)
        && in_selection(n, sel) by {
        s.lemma_filter_contains_rev(pred, n);
        let i = choose|i: int| 0 <= i < selected(s, sel).len() && selected(s, sel)[i] == n;
        s.lemma_filter_pred(pred, i);
    }
}

/// Translating notes to their own first onset moves nothing: the shift
/// round-trips to the original positions.
pub proof fn lemma_shift_to_own_start(s: Seq<Note>)
    requires
        s.len() > 0,
        all_notes_wf(s),
    ensures
        0 <= min_onset(s) <= u64::MAX,
        shifted(s, min_onset(s) as u64) == s,
{
    lemma_min_onset_props(s);
    let k = choose|k: int| 0 <= k < s.len() && (#[trigger] s[k]).onset_b32 == min_onset(s);
    assert(shifted(s, min_onset(s) as u64) =~= s);
}

// ------------------------------------------------------------------
// The note store
// ------------------------------------------------------------------

/// A composition: its tempo and its notes. The notes are kept with unique
/// (pitch, onset) slots; the active-note view is derived from them.
#[derive(Debug, Clone)]
pub struct Score {
    bpm: u16,
    notes: Vec<Note>,
}

impl Score {
    /// The stored notes, in storage order.
    pub closed spec fn notes_seq(self) -> Seq<Note> {
        self.notes@
    }

    /// The tempo, in beats per minute.
    pub closed spec fn bpm_spec(self) -> u16 {
        self.bpm
    }

    /// The tempo, in beats per minute.
    pub fn bpm(&self) -> (r: u16)
        ensures
            r == self.bpm_spec(),
    {
        self.bpm
    }

    /// Every stored note is valid and no two share a slot.
    pub open spec fn wf(self) -> bool {
        &&& all_notes_wf(self.notes_seq())
        &&& slots_unique(self.notes_seq())
    }

    /// An empty score at the given tempo.
    pub fn new(bpm: u16) -> (r: Score)
        ensures
            r.bpm_spec() == bpm,
            r.notes_seq() == Seq::<Note>::empty(),
            r.wf(),
    {
        let r = Score { bpm, notes: Vec::new() };
        proof {
            assert(r.notes_seq() =~= Seq::<Note>::empty());
        }
        r
    }

    /// Changes the tempo, leaving the notes alone.
    pub fn set_bpm(&mut self, bpm: u16)
        ensures
            final(self).bpm_spec() == bpm,
            final(self).notes_seq() == old(self).notes_seq(),
    {
        self.bpm = bpm;
    }

    /// The notes starting exactly at `onset_b32`; empty if none do.
    pub fn notes_starting_at_time(&self, onset_b32: u64) -> (r: Vec<Note>)
        ensures
            r@ == starting_at(self.notes_seq(), onset_b32),
    {
        let s = &self.notes;
        let mut r: Vec<Note> = Vec::new();
        let mut i: usize = 0;
        while i < s.len()
            invariant
                i <= s.len(),
                s@ == self.notes_seq(),
                r@ == starting_at(s@.take(i as int), onset_b32),
            decreases s.len() - i,
        {
            proof {
                assert(s@.take(i as int).push(s@[i as int]) =~= s@.take(i + 1));
                lemma_filter_push(s@.take(i as int), |n: Note| n.onset_b32 == onset_b32, s@[i as int]);
            }
            if s[i].onset_b32 == onset_b32 {
                r.push(s[i]);
            }
            i = i + 1;
        }
        proof {
            assert(s@.take(s@.len() as int) =~= s@);
        }
        r
    }

    /// True while the song is not over at `time_point_b32`: some note's end
    /// lies strictly beyond it.
    pub fn time_within_song(&self, time_point_b32: u64) -> (r: bool)
        requires
            self.wf(),
        ensures
            r == (time_point_b32 < last_time(self.notes_seq())),
            r == exists|i: int|
                0 <= i < self.notes_seq().len() && note_end(#[trigger] self.notes_seq()[i])
                    > time_point_b32,
    {
        let s = &self.notes;
        let mut last: u64 = 0;
        let mut i: usize = 0;
        while i < s.len()
            invariant
                i <= s.len(),
                s@ == self.notes_seq(),
                self.wf(),
                last as int == last_time(s@.take(i as int)),
            decreases s.len() - i,
        {
            proof {
                assert(s@.take(i as int).push(s@[i as int]) =~= s@.take(i + 1));
                assert(s@.take(i + 1).drop_last() =~= s@.take(i as int));
                assert(note_wf(s@[i as int]));
            }
            let e = s[i].onset_b32 + s[i].duration_b32;
            if e > last {
                last = e;
            }
            i = i + 1;
        }
        proof {
            assert(s@.take(s@.len() as int) =~= s@);
            lemma_time_within_song_iff(self.notes_seq(), time_point_b32);
        }
        last > time_point_b32
    }

    /// Length of the song: from the first onset to the last note end, 0 for
    /// an empty score.
    pub fn duration(&self) -> (r: u64)
        requires
            self.wf(),
        ensures
            self.notes_seq().len() == 0 ==> r == 0,
            self.notes_seq().len() > 0 ==> r as int == last_time(self.notes_seq()) - min_onset(
                self.notes_seq(),
            ),
    {
        if self.notes.len() == 0 {
            return 0;
        }
        let s = &self.notes;
        let mut first_onset: u64 = s[0].onset_b32;
        let mut last: u64 = 0;
        let mut i: usize = 0;
        while i < s.len()
            invariant
                i <= s.len(),
                s@ == self.notes_seq(),
                self.wf(),
                s@.len() > 0,
                last as int == last_time(s@.take(i as int)),
                i == 0 ==> first_onset == s@[0].onset_b32,
                i > 0 ==> first_onset as int == min_onset(s@.take(i as int)),
            decreases s.len() - i,
        {
            proof {
                assert(s@.take(i as int).push(s@[i as int]) =~= s@.take(i + 1));
                assert(s@.take(i + 1).drop_last() =~= s@.take(i as int));
                assert(note_wf(s@[i as int]));
                if i > 0 {
                    assert(s@.take(i + 1).len() > 1);
                }
            }
            let e = s[i].onset_b32 + s[i].duration_b32;
            if e > last {
                last = e;
            }
            if s[i].onset_b32 < first_onset {
                first_onset = s[i].onset_b32;
            }
            i = i + 1;
        }
        proof {
            assert(s@.take(s@.len() as int) =~= s@);
            lemma_min_onset_props(self.notes_seq());
            lemma_last_time_props(self.notes_seq());
            let k = choose|k: int|
                0 <= k < s@.len() && (#[trigger] s@[k]).onset_b32 == min_onset(s@);
            assert(note_end(s@[k]) <= last_time(s@));
        }
        last - first_onset
    }

    /// The derived active-note view at `time_point_b32`: every note covering
    /// that instant, tagged with its phase there.
    pub fn notes_active_at_time(&self, time_point_b32: u64) -> (r: Vec<ActiveNote>)
        requires
            self.wf(),
        ensures
            r@ == actives_spec(self.notes_seq(), time_point_b32 as int),
    {
        let t = time_point_b32;
        let s = &self.notes;
        let mut r: Vec<ActiveNote> = Vec::new();
        let mut i: usize = 0;
        while i < s.len()
            invariant
                i <= s.len(),
                s@ == self.notes_seq(),
                self.wf(),
                r@ == actives_spec(s@.take(i as int), t as int),
            decreases s.len() - i,
        {
            proof {
                assert(s@.take(i as int).push(s@[i as int]) =~= s@.take(i + 1));
                lemma_filter_push(s@.take(i as int), |n: Note| covers(n, t as int), s@[i as int]);
                assert(note_wf(s@[i as int]));
            }
            let n = s[i];
            if n.onset_b32 <= t && t < n.onset_b32 + n.duration_b32 {
                let state = if t == n.onset_b32 {
                    NoteState::Onset
                } else if t == n.onset_b32 + n.duration_b32 - 1 {
                    NoteState::Release
                } else {
                    NoteState::Sustain
                };
                r.push(ActiveNote { note: n, state });
                proof {
                    assert(covering(s@.take(i + 1), t as int) =~= covering(
                        s@.take(i as int),
                        t as int,
                    ).push(n));
                    assert(r@ =~= actives_spec(s@.take(i + 1), t as int));
                }
            } else {
                proof {
                    assert(covering(s@.take(i + 1), t as int) =~= covering(s@.take(i as int), t as int));
                }
            }
            i = i + 1;
        }
        proof {
            assert(s@.take(s@.len() as int) =~= s@);
        }
        r
    }

    /// The smallest onset strictly after `cur` (or the smallest at all for
    /// `None`); `None` once no note starts later.
    pub fn next_onset_after(&self, cur: Option<u64>) -> (r: Option<u64>)
        ensures
            notes_after(self.notes_seq(), cur).len() == 0 ==> r is None,
            notes_after(self.notes_seq(), cur).len() > 0 ==> (r matches Some(m) && m as int
                == min_onset(notes_after(self.notes_seq(), cur))),
    {
        let s = &self.notes;
        let mut best: Option<u64> = None;
        let mut i: usize = 0;
        while i < s.len()
            invariant
                i <= s.len(),
                s@ == self.notes_seq(),
                best is None ==> notes_after(s@.take(i as int), cur).len() == 0,
                best matches Some(m) ==> notes_after(s@.take(i as int), cur).len() > 0 && m as int
                    == min_onset(notes_after(s@.take(i as int), cur)),
            decreases s.len() - i,
        {
            proof {
                assert(s@.take(i as int).push(s@[i as int]) =~= s@.take(i + 1));
                assert(s@.take(i + 1).drop_last() =~= s@.take(i as int));
                if after_cur(s@[i as int], cur) {
                    let f = notes_after(s@.take(i as int), cur);
                    assert(f.push(s@[i as int]).drop_last() =~= f);
                }
            }
            let n = s[i];
            let eligible = match cur {
                Some(c) => n.onset_b32 > c,
                None => true,
            };
            if eligible {
                best = match best {
                    Some(m) => {
                        if n.onset_b32 < m {
                            Some(n.onset_b32)
                        } else {
                            Some(m)
                        }
                    },
                    None => Some(n.onset_b32),
                };
            }
            i = i + 1;
        }
        proof {
            assert(s@.take(s@.len() as int) =~= s@);
        }
        best
    }

    /// Toggle semantics: removes the note already starting at `onset_b32`
    /// with this pitch if there is one, and otherwise adds a fresh note of
    /// the given duration. No overlap resolution is attempted.
    pub fn insert_or_remove(&mut self, pitch: Pitch, onset_b32: u64, duration_b32: u64)
        requires
            old(self).wf(),
            pitch.wf(),
            1 <= duration_b32,
            onset_b32 + duration_b32 <= u64::MAX,
        ensures
            final(self).wf(),
            final(self).bpm_spec() == old(self).bpm_spec(),
            final(self).notes_seq() == toggle_spec(
                old(self).notes_seq(),
                pitch,
                onset_b32,
                duration_b32,
            ),
    {
        let ghost s0 = old(self).notes@;
        let mut found = false;
        let mut i: usize = 0;
        while i < self.notes.len()
            invariant
                i <= self.notes.len(),
                self == old(self),
                s0 == self.notes@,
                found == has_note_at(s0.take(i as int), pitch, onset_b32),
            decreases self.notes.len() - i,
        {
            proof {
                assert(s0.take(i as int).push(s0[i as int]) =~= s0.take(i + 1));
            }
            if self.notes[i].pitch == pitch && self.notes[i].onset_b32 == onset_b32 {
                found = true;
                proof {
                    assert(same_slot(
                        s0.take(i + 1)[i as int],
                        Note { pitch, onset_b32, duration_b32: 1 },
                    ));
                }
            }
            i = i + 1;
        }
        proof {
            assert(s0.take(s0.len() as int) =~= s0);
        }
        if found {
            let mut kept: Vec<Note> = Vec::new();
            let mut j: usize = 0;
            while j < self.notes.len()
                invariant
                    j <= self.notes.len(),
                    self == old(self),
                    s0 == self.notes@,
                    kept@ == without_slot(s0.take(j as int), pitch, onset_b32),
                decreases self.notes.len() - j,
            {
                proof {
                    assert(s0.take(j as int).push(s0[j as int]) =~= s0.take(j + 1));
                    lemma_filter_push(
                        s0.take(j as int),
                        |n: Note| !(n.pitch == pitch && n.onset_b32 == onset_b32),
                        s0[j as int],
                    );
                }
                let n = self.notes[j];
                if !(n.pitch == pitch && n.onset_b32 == onset_b32) {
                    kept.push(n);
                }
                j = j + 1;
            }
            proof {
                assert(s0.take(s0.len() as int) =~= s0);
                lemma_filter_keeps_wf(s0, |n: Note| !(n.pitch == pitch && n.onset_b32 == onset_b32));
            }
            self.notes = kept;
        } else {
            let note_to_insert = Note { pitch, onset_b32, duration_b32 };
            self.notes.push(note_to_insert);
            proof {
                let s1 = self.notes@;
                assert forall|a: int, b: int| 0 <= a < b < s1.len() implies !same_slot(
                    #[trigger] s1[a],
                    #[trigger] s1[b],
                ) by {
                    if b == s1.len() - 1 {
                        assert(!same_slot(
                            s0[a],
                            Note { pitch, onset_b32, duration_b32: 1 },
                        ));
                    }
                }
                assert(all_notes_wf(s1)) by {
                    assert(forall|k: int| 0 <= k < s0.len() ==> s1[k] == s0[k]);
                }
            }
        }
    }

    /// A new score holding exactly the notes inside the selection, in
    /// storage order.
    pub fn clone_at_selection(&self, selection_range: SelectionRange) -> (r: Score)
        requires
            self.wf(),
            selection_range.pitch_low.wf(),
            selection_range.pitch_high.wf(),
        ensures
            r.bpm_spec() == self.bpm_spec(),
            r.wf(),
            r.notes_seq() == selected(self.notes_seq(), selection_range),
    {
        let ghost s0 = self.notes@;
        let mut picked: Vec<Note> = Vec::new();
        let mut i: usize = 0;
        while i < self.notes.len()
            invariant
                i <= self.notes.len(),
                s0 == self.notes@,
                self.wf(),
                selection_range.pitch_low.wf(),
                selection_range.pitch_high.wf(),
                picked@ == selected(s0.take(i as int), selection_range),
            decreases self.notes.len() - i,
        {
            proof {
                assert(s0.take(i as int).push(s0[i as int]) =~= s0.take(i + 1));
                lemma_filter_push(
                    s0.take(i as int),
                    |n: Note| in_selection(n, selection_range),
                    s0[i as int],
                );
                assert(note_wf(s0[i as int]));
            }
            let n = self.notes[i];
            if n.onset_b32 >= selection_range.time_point_start_b32 && n.onset_b32
                < selection_range.time_point_end_b32 && n.pitch.height()
                >= selection_range.pitch_low.height() && n.pitch.height()
                <= selection_range.pitch_high.height() {
                picked.push(n);
            }
            i = i + 1;
        }
        proof {
            assert(s0.take(s0.len() as int) =~= s0);
            lemma_filter_keeps_wf(s0, |n: Note| in_selection(n, selection_range));
        }
        Score { bpm: self.bpm, notes: picked }
    }

    /// Removes every note inside the selection; notes outside it survive in
    /// storage order.
    pub fn delete_in_selection(&mut self, selection_range: SelectionRange)
        requires
            old(self).wf(),
            selection_range.pitch_low.wf(),
            selection_range.pitch_high.wf(),
        ensures
            final(self).wf(),
            final(self).bpm_spec() == old(self).bpm_spec(),
            final(self).notes_seq() == kept_outside(old(self).notes_seq(), selection_range),
    {
        let ghost s0 = old(self).notes@;
        let mut kept: Vec<Note> = Vec::new();
        let mut i: usize = 0;
        while i < self.notes.len()
            invariant
                i <= self.notes.len(),
                self == old(self),
                s0 == self.notes@,
                old(self).wf(),
                selection_range.pitch_low.wf(),
                selection_range.pitch_high.wf(),
                kept@ == kept_outside(s0.take(i as int), selection_range),
            decreases self.notes.len() - i,
        {
            proof {
                assert(s0.take(i as int).push(s0[i as int]) =~= s0.take(i + 1));
                lemma_filter_push(
                    s0.take(i as int),
                    |n: Note| !in_selection(n, selection_range),
                    s0[i as int],
                );
                assert(note_wf(s0[i as int]));
            }
            let n = self.notes[i];
            if !(n.onset_b32 >= selection_range.time_point_start_b32 && n.onset_b32
                < selection_range.time_point_end_b32 && n.pitch.height()
                >= selection_range.pitch_low.height() && n.pitch.height()
                <= selection_range.pitch_high.height()) {
                kept.push(n);
            }
            i = i + 1;
        }
        proof {
            assert(s0.take(s0.len() as int) =~= s0);
            lemma_filter_keeps_wf(s0, |n: Note| !in_selection(n, selection_range));
        }
        self.notes = kept;
    }

    /// Merge semantics: absorbs every note of this pitch whose span strictly
    /// intersects `[onset_b32, onset_b32 + duration_b32)` into one note
    /// spanning the union of their spans; adjacent notes are left alone.
    pub fn insert(&mut self, pitch: Pitch, onset_b32: u64, duration_b32: u64)
        requires
            old(self).wf(),
            pitch.wf(),
            1 <= duration_b32,
            onset_b32 + duration_b32 <= u64::MAX,
        ensures
            final(self).wf(),
            final(self).bpm_spec() == old(self).bpm_spec(),
            final(self).notes_seq() == merge_note_spec(
                old(self).notes_seq(),
                pitch,
                onset_b32 as int,
                onset_b32 + duration_b32,
            ),
    {
        let ghost s0 = old(self).notes@;
        let ghost o = onset_b32 as int;
        let ghost e = onset_b32 + duration_b32;
        let end_b32 = onset_b32 + duration_b32;
        let mut kept: Vec<Note> = Vec::new();
        let mut m_onset = onset_b32;
        let mut m_end = end_b32;
        let mut i: usize = 0;
        while i < self.notes.len()
            invariant
                i <= self.notes.len(),
                self == old(self),
                s0 == self.notes@,
                old(self).wf(),
                o == onset_b32 as int,
                e == onset_b32 + duration_b32,
                end_b32 as int == e,
                o < e <= u64::MAX,
                kept@ == without_overlapping(s0.take(i as int), pitch, o, e),
                m_onset as int == merged_onset(s0.take(i as int), pitch, o, e),
                m_end as int == merged_end(s0.take(i as int), pitch, o, e),
                m_onset <= onset_b32,
                end_b32 <= m_end,
            decreases self.notes.len() - i,
        {
            proof {
                assert(s0.take(i as int).push(s0[i as int]) =~= s0.take(i + 1));
                assert(s0.take(i + 1).drop_last() =~= s0.take(i as int));
                lemma_filter_push(
                    s0.take(i as int),
                    |n: Note| !overlaps_span(n, pitch, o, e),
                    s0[i as int],
                );
                assert(note_wf(s0[i as int]));
            }
            let n = self.notes[i];
            if n.pitch == pitch && n.onset_b32 < end_b32 && onset_b32 < n.onset_b32
                + n.duration_b32 {
                if n.onset_b32 < m_onset {
                    m_onset = n.onset_b32;
                }
                let ne = n.onset_b32 + n.duration_b32;
                if ne > m_end {
                    m_end = ne;
                }
            } else {
                kept.push(n);
            }
            i = i + 1;
        }
        proof {
            assert(s0.take(s0.len() as int) =~= s0);
        }
        let merged = Note { pitch, onset_b32: m_onset, duration_b32: m_end - m_onset };
        kept.push(merged);
        self.notes = kept;
        proof {
            let pred = |n: Note| !overlaps_span(n, pitch, o, e);
            let w = without_overlapping(s0, pitch, o, e);
            lemma_filter_keeps_wf(s0, pred);
            lemma_merged_onset_props(s0, pitch, o, e);
            lemma_merged_end_props(s0, pitch, o, e);
            assert(merged == merged_note(s0, pitch, o, e));
            assert(note_wf(merged));
            let s1 = self.notes@;
            assert(s1 == w.push(merged));
            assert forall|a: int, b: int| 0 <= a < b < s1.len() implies !same_slot(
                #[trigger] s1[a],
                #[trigger] s1[b],
            ) by {
                if b == s1.len() - 1 {
                    let x = w[a];
                    assert(w.contains(x));
                    s0.lemma_filter_contains_rev(pred, x);
                    let j = choose|j: int| 0 <= j < s0.len() && s0[j] == x;
                    s0.lemma_filter_pred(pred, a);
                    assert(!overlaps_span(x, pitch, o, e));
                    if x.pitch == pitch && x.onset_b32 == merged.onset_b32 {
                        if merged.onset_b32 as int == o {
                            // x would start at the inserted onset and so
                            // strictly intersect the inserted span
                            assert(note_wf(x));
                            assert(overlaps_span(x, pitch, o, e));
                            assert(false);
                        } else {
                            let k = choose|k: int|
                                0 <= k < s0.len() && overlaps_span(#[trigger] s0[k], pitch, o, e)
                                    && s0[k].onset_b32 == merged_onset(s0, pitch, o, e);
                            assert(s0[k] != x);
                            assert(k != j);
                            assert(same_slot(s0[k], s0[j]));
                            assert(false);
                        }
                    }
                }
            }
            assert(all_notes_wf(s1)) by {
                assert(forall|k: int| 0 <= k < w.len() ==> s1[k] == w[k]);
            }
        }
    }

    /// Overlays every note of `other` onto a copy of this score, one at a
    /// time in storage order, each with merge semantics.
    pub fn merge_down(&self, other: &Score) -> (r: Score)
        requires
            self.wf(),
            other.wf(),
        ensures
            r.bpm_spec() == self.bpm_spec(),
            r.wf(),
            r.notes_seq() == merge_down_spec(self.notes_seq(), other.notes_seq()),
    {
        let ghost s0 = self.notes@;
        let ghost o0 = other.notes@;
        let mut merged_score = Score { bpm: self.bpm, notes: copy_notes(&self.notes) };
        let mut i: usize = 0;
        while i < other.notes.len()
            invariant
                i <= other.notes.len(),
                s0 == self.notes@,
                o0 == other.notes@,
                self.wf(),
                other.wf(),
                merged_score.wf(),
                merged_score.bpm_spec() == self.bpm_spec(),
                merged_score.notes_seq() == merge_down_spec(s0, o0.take(i as int)),
            decreases other.notes.len() - i,
        {
            proof {
                assert(o0.take(i as int).push(o0[i as int]) =~= o0.take(i + 1));
                assert(o0.take(i + 1).drop_last() =~= o0.take(i as int));
                assert(note_wf(o0[i as int]));
            }
            let n = other.notes[i];
            merged_score.insert(n.pitch, n.onset_b32, n.duration_b32);
            i = i + 1;
        }
        proof {
            assert(o0.take(o0.len() as int) =~= o0);
        }
        merged_score
    }

    /// A copy of this score shifted so that its earliest onset lands on the
    /// given start time; `None` or an empty score yields an unshifted copy.
    pub fn translate(&self, time_point_start_b32: Option<u64>) -> (r: Score)
        requires
            self.wf(),
            time_point_start_b32 matches Some(t) ==> forall|i: int|
                0 <= i < self.notes_seq().len() ==> (#[trigger] self.notes_seq()[i]).onset_b32
                    - min_onset(self.notes_seq()) + t + self.notes_seq()[i].duration_b32
                    <= u64::MAX,
        ensures
            r.bpm_spec() == self.bpm_spec(),
            r.wf(),
            time_point_start_b32 is None ==> r.notes_seq() == self.notes_seq(),
            time_point_start_b32 is Some && self.notes_seq().len() == 0 ==> r.notes_seq()
                == self.notes_seq(),
            time_point_start_b32 is Some && self.notes_seq().len() > 0 ==> r.notes_seq()
                == shifted(self.notes_seq(), time_point_start_b32->0),
    {
        let ghost s0 = self.notes@;
        let new_start_time = match time_point_start_b32 {
            Some(t) => t,
            None => {
                return Score { bpm: self.bpm, notes: copy_notes(&self.notes) };
            }
        };
        if self.notes.len() == 0 {
            return Score { bpm: self.bpm, notes: copy_notes(&self.notes) };
        }
        let t = new_start_time;
        let mut min: u64 = self.notes[0].onset_b32;
        let mut i: usize = 0;
        while i < self.notes.len()
            invariant
                i <= self.notes.len(),
                s0 == self.notes@,
                self.wf(),
                s0.len() > 0,
                i == 0 ==> min == s0[0].onset_b32,
                i > 0 ==> min as int == min_onset(s0.take(i as int)),
            decreases self.notes.len() - i,
        {
            proof {
                assert(s0.take(i as int).push(s0[i as int]) =~= s0.take(i + 1));
                assert(s0.take(i + 1).drop_last() =~= s0.take(i as int));
                if i > 0 {
                    assert(s0.take(i + 1).len() > 1);
                }
            }
            if self.notes[i].onset_b32 < min {
                min = self.notes[i].onset_b32;
            }
            i = i + 1;
        }
        proof {
            assert(s0.take(s0.len() as int) =~= s0);
            lemma_min_onset_props(s0);
        }
        let mut moved: Vec<Note> = Vec::new();
        let mut j: usize = 0;
        while j < self.notes.len()
            invariant
                j <= self.notes.len(),
                s0 == self.notes@,
                self.wf(),
                s0.len() > 0,
                min as int == min_onset(s0),
                forall|k: int| 0 <= k < s0.len() ==> min <= (#[trigger] s0[k]).onset_b32,
                forall|k: int|
                    0 <= k < s0.len() ==> (#[trigger] s0[k]).onset_b32 - min + t
                        + s0[k].duration_b32 <= u64::MAX,
                moved@.len() == j,
                forall|k: int| 0 <= k < j ==> moved@[k] == shifted(s0, t)[k],
            decreases self.notes.len() - j,
        {
            let n = self.notes[j];
            let new_onset = if min > t {
                n.onset_b32 - (min - t)
            } else {
                n.onset_b32 + (t - min)
            };
            moved.push(Note { pitch: n.pitch, onset_b32: new_onset, duration_b32: n.duration_b32 });
            j = j + 1;
        }
        proof {
            assert(moved@ =~= shifted(s0, t));
            let s1 = shifted(s0, t);
            assert forall|a: int| 0 <= a < s1.len() implies note_wf(#[trigger] s1[a]) by {
                assert(note_wf(s0[a]));
            }
            assert forall|a: int, b: int| 0 <= a < b < s1.len() implies !same_slot(
                #[trigger] s1[a],
                #[trigger] s1[b],
            ) by {
                assert(!same_slot(s0[a], s0[b]));
            }
        }
        Score { bpm: self.bpm, notes: moved }
    }
}

/// An element-for-element copy of a note list.
fn copy_notes(v: &Vec<Note>) -> (r: Vec<Note>)
    ensures
        r@ == v@,
{
    let mut r: Vec<Note> = Vec::new();
    let mut i: usize = 0;
    while i < v.len()
        invariant
            i <= v.len(),
            r@ == v@.take(i as int),
        decreases v.len() - i,
    {
        proof {
            assert(v@.take(i as int).push(v@[i as int]) =~= v@.take(i + 1));
        }
        r.push(v[i]);
        i = i + 1;
    }
    proof {
        assert(v@.take(v@.len() as int) =~= v@);
    }
    r
}

} // verus!

