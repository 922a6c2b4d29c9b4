use sequencer::pitch::{Pitch, Tone};
use sequencer::score::Score;
use sequencer::song_file::{
    load_score, parse_line, parse_note_token, parse_u64, score_to_lines, u64_digits, ParsedLine,
    SongFile, SongParseError,
};

fn lines(strs: &[&str]) -> Vec<Vec<u8>> {
    strs.iter().map(|s| s.as_bytes().to_vec()).collect()
}

#[test]
fn parse_u64_values() {
    assert_eq!(parse_u64(&b"0".to_vec()), Some(0));
    assert_eq!(parse_u64(&b"12345".to_vec()), Some(12345));
    assert_eq!(parse_u64(&b"18446744073709551615".to_vec()), Some(u64::MAX));
    assert_eq!(parse_u64(&b"18446744073709551616".to_vec()), None);
    assert_eq!(parse_u64(&b"".to_vec()), None);
    assert_eq!(parse_u64(&b"12a".to_vec()), None);
    assert_eq!(parse_u64(&b"-1".to_vec()), None);
}

#[test]
fn u64_digits_round_trip() {
    assert_eq!(u64_digits(0), b"0".to_vec());
    assert_eq!(u64_digits(12345), b"12345".to_vec());
    assert_eq!(u64_digits(u64::MAX), b"18446744073709551615".to_vec());
    assert_eq!(parse_u64(&u64_digits(907)), Some(907));
}

#[test]
fn parse_note_tokens() {
    let tok = parse_note_token(&b"C4-32".to_vec()).unwrap();
    assert_eq!(tok.pitch, Pitch::new(Tone::C, 4));
    assert_eq!(tok.duration_b32, 32);

    let tok = parse_note_token(&b"As0-1".to_vec()).unwrap();
    assert_eq!(tok.pitch, Pitch::new(Tone::As, 0));
    assert_eq!(tok.duration_b32, 1);

    assert!(parse_note_token(&b"H4-32".to_vec()).is_none()); // unknown tone
    assert!(parse_note_token(&b"C9-32".to_vec()).is_none()); // octave too high
    assert!(parse_note_token(&b"C4-0".to_vec()).is_none()); // zero duration
    assert!(parse_note_token(&b"C4".to_vec()).is_none()); // no dash
    assert!(parse_note_token(&b"C4-3-2".to_vec()).is_none()); // two dashes
    assert!(parse_note_token(&b"C-32".to_vec()).is_none()); // no octave digit
}

#[test]
fn parse_lines() {
    assert!(matches!(parse_line(&b"".to_vec()), Ok(ParsedLine::Blank)));
    assert!(matches!(parse_line(&b"   ".to_vec()), Ok(ParsedLine::Blank)));
    assert!(matches!(parse_line(&b"BPM: 120".to_vec()), Ok(ParsedLine::Bpm(120))));
    assert!(matches!(parse_line(&b"BPM:90".to_vec()), Ok(ParsedLine::Bpm(90))));
    assert_eq!(
        parse_line(&b"BPM: fast".to_vec()).unwrap_err(),
        SongParseError::InvalidBpm
    );
    assert_eq!(
        parse_line(&b"BPM: 70000".to_vec()).unwrap_err(),
        SongParseError::InvalidBpm
    );

    match parse_line(&b"32: C4-16 E4-8".to_vec()).unwrap() {
        ParsedLine::Notes(onset, toks) => {
            assert_eq!(onset, 32);
            assert_eq!(toks.len(), 2);
            assert_eq!(toks[0].pitch, Pitch::new(Tone::C, 4));
            assert_eq!(toks[0].duration_b32, 16);
            assert_eq!(toks[1].pitch, Pitch::new(Tone::E, 4));
            assert_eq!(toks[1].duration_b32, 8);
        }
        _ => panic!("expected a note line"),
    }

    assert_eq!(
        parse_line(&b"32 C4-16".to_vec()).unwrap_err(),
        SongParseError::InvalidLine
    );
    assert_eq!(
        parse_line(&b"1: 2: C4-16".to_vec()).unwrap_err(),
        SongParseError::InvalidLine
    );
    assert_eq!(
        parse_line(&b"x: C4-16".to_vec()).unwrap_err(),
        SongParseError::InvalidOnset
    );
    assert_eq!(
        parse_line(&b"0: C4-x".to_vec()).unwrap_err(),
        SongParseError::InvalidNote
    );
}

#[test]
fn load_small_song() {
    let song = lines(&["BPM: 90", "", "0: C4-32 E4-32", "32: Fs2-16"]);
    let score = load_score(&song).unwrap();
    assert_eq!(score.bpm(), 90);
    assert_eq!(score.notes_starting_at_time(0).len(), 2);
    let at_32 = score.notes_starting_at_time(32);
    assert_eq!(at_32.len(), 1);
    assert_eq!(at_32[0].pitch, Pitch::new(Tone::Fs, 2));
    assert_eq!(at_32[0].duration_b32, 16);
    assert_eq!(score.duration(), 48);
}

#[test]
fn load_defaults_and_errors() {
    // No header: the default tempo stands
    let score = load_score(&lines(&["0: C4-1"])).unwrap();
    assert_eq!(score.bpm(), 120);

    assert_eq!(
        load_score(&lines(&["BPM: 120", "0: C4-32", "oops"])).unwrap_err(),
        SongParseError::InvalidLine
    );
    assert_eq!(
        load_score(&lines(&["0: Z4-1"])).unwrap_err(),
        SongParseError::InvalidNote
    );
    // A note whose end overflows the time type is rejected
    assert_eq!(
        load_score(&lines(&["18446744073709551615: C4-2"])).unwrap_err(),
        SongParseError::NoteOutOfRange
    );
}

#[test]
fn load_toggles_duplicate_notes() {
    // The same note twice at one onset toggles it off again
    let score = load_score(&lines(&["0: C4-8 C4-8 E4-8"])).unwrap();
    assert_eq!(score.notes_starting_at_time(0).len(), 1);
    assert_eq!(
        score.notes_starting_at_time(0)[0].pitch,
        Pitch::new(Tone::E, 4)
    );
}

#[test]
fn save_writes_sorted_lines() {
    let mut score = Score::new(90);
    score.insert(Pitch::new(Tone::Fs, 2), 32, 16);
    score.insert(Pitch::new(Tone::C, 4), 0, 32);
    score.insert(Pitch::new(Tone::E, 4), 0, 32);

    let out = score_to_lines(&score);
    assert_eq!(out[0], b"BPM: 90".to_vec());
    assert_eq!(out.len(), 3);
    // Onset lines come in ascending onset order
    assert!(out[1].starts_with(b"0: "));
    assert!(out[2].starts_with(b"32: "));
    assert_eq!(out[2], b"32: Fs2-16".to_vec());
}

#[test]
fn save_then_load_round_trips() {
    let mut score = Score::new(150);
    score.insert(Pitch::new(Tone::C, 4), 0, 32);
    score.insert(Pitch::new(Tone::Gs, 1), 8, 4);
    score.insert(Pitch::new(Tone::B, 8), 64, 128);

    let reloaded = load_score(&score_to_lines(&score)).unwrap();
    assert_eq!(reloaded.bpm(), 150);
    for t in [0u64, 8, 64] {
        let a = score.notes_starting_at_time(t);
        let b = reloaded.notes_starting_at_time(t);
        assert_eq!(a.len(), b.len());
        for n in a {
            assert!(b.contains(&n));
        }
    }
    assert_eq!(reloaded.duration(), score.duration());
}

#[test]
fn song_file_starts_without_path() {
    let sf = SongFile::new();
    assert!(sf.current_path.is_none());
}
