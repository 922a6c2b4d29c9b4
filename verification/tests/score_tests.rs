use sequencer::pitch::{Pitch, Tone};
use sequencer::score::{NoteState, Score};
use sequencer::selection_range::SelectionRange;

fn create_test_score() -> Score {
    let mut score = Score::new(120);
    // Add some test notes
    score.insert(Pitch::new(Tone::C, 4), 0, 32); // C4 (MIDI 60)
    score.insert(Pitch::new(Tone::E, 4), 32, 32); // E4 (MIDI 64)
    score.insert(Pitch::new(Tone::G, 4), 64, 32); // G4 (MIDI 67)
    score
}

#[test]
fn test_notes_starting_at_time() {
    let score = create_test_score();

    let notes = score.notes_starting_at_time(0);
    assert_eq!(notes.len(), 1);
    assert_eq!(notes[0].pitch, Pitch::new(Tone::C, 4));

    let empty_notes = score.notes_starting_at_time(16);
    assert!(empty_notes.is_empty());
}

#[test]
fn test_time_within_song() {
    let score = create_test_score();

    assert!(score.time_within_song(0));
    assert!(score.time_within_song(64));
    assert!(score.time_within_song(95));
    assert!(!score.time_within_song(96)); // Last note ends at 96
    assert!(!score.time_within_song(128));
}

#[test]
fn test_insert_or_remove() {
    let mut score = Score::new(120);

    // Test insertion
    score.insert_or_remove(Pitch::new(Tone::C, 4), 0, 32);
    assert_eq!(score.notes_starting_at_time(0).len(), 1);

    // Test removal
    score.insert_or_remove(Pitch::new(Tone::C, 4), 0, 32);
    assert_eq!(score.notes_starting_at_time(0).len(), 0);
}

#[test]
fn test_clone_at_selection() {
    let score = create_test_score();

    let selected = score.clone_at_selection(SelectionRange {
        time_point_start_b32: 0,
        time_point_end_b32: 64,
        pitch_low: Pitch::new(Tone::C, 4),
        pitch_high: Pitch::new(Tone::E, 4),
    });

    assert_eq!(selected.notes_starting_at_time(0).len(), 1);
    assert_eq!(selected.notes_starting_at_time(32).len(), 1);
    assert_eq!(selected.notes_starting_at_time(64).len(), 0); // G4 is outside pitch range
}

#[test]
fn test_translate() {
    let score = create_test_score();

    // Test translation to later time
    let translated = score.translate(Some(32));
    assert!(translated.notes_starting_at_time(0).is_empty());
    assert_eq!(
        translated.notes_starting_at_time(32)[0].pitch,
        Pitch::new(Tone::C, 4)
    );

    // Test translation with None
    let no_translation = score.translate(None);
    assert_eq!(no_translation.notes_starting_at_time(0).len(), 1);
}

#[test]
fn test_insert() {
    let mut score = Score::new(120);

    // Test basic insertion
    score.insert(Pitch::new(Tone::C, 4), 0, 32);
    assert_eq!(score.notes_starting_at_time(0).len(), 1);

    // Test overlapping notes merge
    score.insert(Pitch::new(Tone::C, 4), 16, 32);
    let notes = score.notes_starting_at_time(0);
    assert_eq!(notes.len(), 1);
    assert_eq!(notes[0].duration_b32, 48); // Notes should merge
}

#[test]
fn test_merge_down() {
    let mut score1 = Score::new(120);
    score1.insert(Pitch::new(Tone::C, 4), 0, 32);

    let mut score2 = Score::new(120);
    score2.insert(Pitch::new(Tone::E, 4), 0, 32);

    let merged = score1.merge_down(&score2);
    assert_eq!(merged.notes_starting_at_time(0).len(), 2);
}

#[test]
fn test_duration() {
    let empty_score = Score::new(120);
    assert_eq!(empty_score.duration(), 0);

    let score = create_test_score();
    assert_eq!(score.duration(), 96); // From start of first note to end of last note
}

#[test]
fn test_note_states() {
    let mut score = Score::new(120);

    // Add a note from time 0 to 32
    score.insert(Pitch::new(Tone::C, 4), 0, 32);

    // Test onset
    let notes_at_0 = score.notes_active_at_time(0);
    assert_eq!(notes_at_0.len(), 1);
    assert_eq!(notes_at_0[0].state, NoteState::Onset);
    assert_eq!(notes_at_0[0].note.pitch, Pitch::new(Tone::C, 4));

    // Test sustain
    let notes_at_16 = score.notes_active_at_time(16);
    assert_eq!(notes_at_16.len(), 1);
    assert_eq!(notes_at_16[0].state, NoteState::Sustain);
    assert_eq!(notes_at_16[0].note.pitch, Pitch::new(Tone::C, 4));

    // Test release at the last covered instant
    let notes_at_31 = score.notes_active_at_time(31);
    assert_eq!(notes_at_31.len(), 1);
    assert_eq!(notes_at_31[0].state, NoteState::Release);
    assert_eq!(notes_at_31[0].note.pitch, Pitch::new(Tone::C, 4));

    // Test no notes active once the span is over
    let notes_at_32 = score.notes_active_at_time(32);
    assert_eq!(notes_at_32.len(), 0);

    let notes_at_33 = score.notes_active_at_time(33);
    assert_eq!(notes_at_33.len(), 0);
}

#[test]
fn test_overlapping_notes() {
    let mut score = Score::new(120);

    // Add two overlapping notes of the same pitch
    score.insert(Pitch::new(Tone::C, 4), 0, 32);
    score.insert(Pitch::new(Tone::C, 4), 16, 32);

    // Should be merged into one longer note
    let notes_at_0 = score.notes_active_at_time(0);
    assert_eq!(notes_at_0.len(), 1);
    assert_eq!(notes_at_0[0].state, NoteState::Onset);

    // The merged note spans [0, 48): its release is at 47
    let notes_at_47 = score.notes_active_at_time(47);
    assert_eq!(notes_at_47.len(), 1);
    assert_eq!(notes_at_47[0].state, NoteState::Release);
    assert_eq!(score.notes_active_at_time(48).len(), 0);

    // Test that the note persists through the middle
    let notes_at_24 = score.notes_active_at_time(24);
    assert_eq!(notes_at_24.len(), 1);
    assert_eq!(notes_at_24[0].state, NoteState::Sustain);
}

#[test]
fn test_remove_note() {
    let mut score = Score::new(120);

    // Add and then remove a note
    score.insert_or_remove(Pitch::new(Tone::C, 4), 0, 32);

    // Verify note exists
    assert_eq!(score.notes_active_at_time(16).len(), 1);

    // Remove the note
    score.insert_or_remove(Pitch::new(Tone::C, 4), 0, 32);

    // Verify note is gone from all time points
    assert_eq!(score.notes_active_at_time(0).len(), 0);
    assert_eq!(score.notes_active_at_time(16).len(), 0);
    assert_eq!(score.notes_active_at_time(32).len(), 0);
}

#[test]
fn test_multiple_pitches() {
    let mut score = Score::new(120);

    // Add two notes at different pitches at the same time
    score.insert(Pitch::new(Tone::C, 4), 0, 32);
    score.insert(Pitch::new(Tone::E, 4), 0, 32);

    let notes_at_0 = score.notes_active_at_time(0);
    assert_eq!(notes_at_0.len(), 2);
    assert!(notes_at_0.iter().all(|n| n.state == NoteState::Onset));

    // Verify pitches are different
    let pitches: Vec<Pitch> = notes_at_0.iter().map(|n| n.note.pitch).collect();
    assert!(pitches.contains(&Pitch::new(Tone::C, 4)));
    assert!(pitches.contains(&Pitch::new(Tone::E, 4)));
}

#[test]
fn test_insert_or_remove_keeps_other_notes() {
    let mut score = create_test_score();

    // Toggle a fresh note on and off again: the original notes survive
    score.insert_or_remove(Pitch::new(Tone::A, 5), 16, 8);
    assert_eq!(score.notes_starting_at_time(16).len(), 1);
    score.insert_or_remove(Pitch::new(Tone::A, 5), 16, 8);
    assert_eq!(score.notes_starting_at_time(16).len(), 0);
    assert_eq!(score.notes_starting_at_time(0).len(), 1);
    assert_eq!(score.notes_starting_at_time(32).len(), 1);
    assert_eq!(score.notes_starting_at_time(64).len(), 1);
    assert_eq!(score.duration(), 96);
}

#[test]
fn test_insert_does_not_merge_adjacent() {
    let mut score = Score::new(120);

    // Two same-pitch notes that touch but do not overlap stay separate
    score.insert(Pitch::new(Tone::C, 4), 0, 16);
    score.insert(Pitch::new(Tone::C, 4), 16, 16);
    assert_eq!(score.notes_starting_at_time(0).len(), 1);
    assert_eq!(score.notes_starting_at_time(0)[0].duration_b32, 16);
    assert_eq!(score.notes_starting_at_time(16).len(), 1);
}

#[test]
fn test_insert_merges_across_other_pitches() {
    let mut score = Score::new(120);

    score.insert(Pitch::new(Tone::C, 4), 0, 32);
    score.insert(Pitch::new(Tone::E, 4), 8, 32);
    // Overlaps only the C4 note; E4 is untouched
    score.insert(Pitch::new(Tone::C, 4), 24, 16);

    let c_notes = score.notes_starting_at_time(0);
    assert_eq!(c_notes.len(), 1);
    assert_eq!(c_notes[0].duration_b32, 40);
    assert_eq!(score.notes_starting_at_time(8).len(), 1);
    assert_eq!(score.notes_starting_at_time(8)[0].pitch, Pitch::new(Tone::E, 4));
}

#[test]
fn test_delete_in_selection() {
    let mut score = create_test_score();

    // Remove everything from time 0 to 64 between C4 and E4: C4@0 and E4@32 go
    score.delete_in_selection(SelectionRange {
        time_point_start_b32: 0,
        time_point_end_b32: 64,
        pitch_low: Pitch::new(Tone::C, 4),
        pitch_high: Pitch::new(Tone::E, 4),
    });

    assert_eq!(score.notes_starting_at_time(0).len(), 0);
    assert_eq!(score.notes_starting_at_time(32).len(), 0);
    assert_eq!(score.notes_starting_at_time(64).len(), 1);
    assert_eq!(score.notes_active_at_time(16).len(), 0);
}

#[test]
fn test_clone_translate_round_trip() {
    let score = create_test_score();

    // Clone a selection and shift it around; moving it back to its own start
    // restores the original positions
    let selected = score.clone_at_selection(SelectionRange {
        time_point_start_b32: 0,
        time_point_end_b32: 64,
        pitch_low: Pitch::new(Tone::C, 4),
        pitch_high: Pitch::new(Tone::E, 4),
    });
    let moved = selected.translate(Some(100));
    assert_eq!(moved.notes_starting_at_time(100).len(), 1);
    assert_eq!(moved.notes_starting_at_time(132).len(), 1);

    let back = moved.translate(Some(0));
    assert_eq!(back.notes_starting_at_time(0).len(), 1);
    assert_eq!(back.notes_starting_at_time(0)[0].pitch, Pitch::new(Tone::C, 4));
    assert_eq!(back.notes_starting_at_time(32).len(), 1);
    assert_eq!(back.notes_starting_at_time(32)[0].pitch, Pitch::new(Tone::E, 4));

    // Translating to its own start moves nothing
    let same = selected.translate(Some(0));
    assert_eq!(same.notes_starting_at_time(0).len(), 1);
    assert_eq!(same.notes_starting_at_time(32).len(), 1);
}

#[test]
fn test_merge_down_merges_overlaps() {
    let mut base = Score::new(120);
    base.insert(Pitch::new(Tone::C, 4), 0, 32);

    let mut overlay = Score::new(120);
    overlay.insert(Pitch::new(Tone::C, 4), 16, 32);
    overlay.insert(Pitch::new(Tone::G, 4), 0, 8);

    let merged = base.merge_down(&overlay);
    let c_notes = merged.notes_starting_at_time(0);
    assert_eq!(c_notes.len(), 2); // merged C4 and the short G4
    assert!(c_notes.iter().any(|n| n.duration_b32 == 48));
    assert!(merged.time_within_song(47));
    assert!(!merged.time_within_song(48));
}
