use sequencer::cursor::{Cursor, CursorMode};
use sequencer::loop_state::{LoopMode, LoopState};
use sequencer::pitch::{Pitch, Tone};
use sequencer::player::{PlayState, Player};
use sequencer::resolution::Resolution;
use sequencer::score::{NoteState, Score};
use sequencer::score_player::ScorePlayer;
use sequencer::score_viewport::{ScoreViewport, ViewportDrawResult};
use sequencer::selection_buffer::SelectionBuffer;

#[test]
fn pitch_next_prev_round_trip() {
    // Away from the boundary, one step up then one step down comes back
    let p = Pitch::new(Tone::C, 4);
    assert_eq!(p.next().unwrap().prev(), Some(p));
    let q = Pitch::new(Tone::B, 3);
    assert_eq!(q.next().unwrap(), Pitch::new(Tone::C, 4));
    assert_eq!(q.next().unwrap().prev(), Some(q));

    // Boundaries
    assert_eq!(Pitch::new(Tone::B, 8).next(), None);
    assert_eq!(Pitch::new(Tone::C, 0).prev(), None);
}

#[test]
fn pitch_all_is_ascending() {
    let all = Pitch::all();
    assert_eq!(all.len(), 108);
    assert_eq!(all[0], Pitch::new(Tone::C, 0));
    assert_eq!(all[107], Pitch::new(Tone::B, 8));
    for w in all.windows(2) {
        assert_eq!(w[0].next(), Some(w[1]));
    }
}

#[test]
fn pitch_names() {
    assert_eq!(Tone::Cs.as_str(), "C#");
    assert_eq!(Tone::from_index(7), Tone::G);
    assert_eq!(Tone::G.index(), 7);
    assert_eq!(Pitch::new(Tone::A, 4).as_str(), "A4");
    assert_eq!(Pitch::new(Tone::Fs, 2).as_str(), "F#2");
}

#[test]
fn loop_state_mark_protocol() {
    let ls = LoopState::new();
    assert_eq!(ls.start_time_b32, None);
    assert_eq!(ls.end_time_b32, None);

    // Out-of-order marks swap
    let ls = ls.mark(10);
    assert_eq!(ls.start_time_b32, Some(10));
    assert_eq!(ls.end_time_b32, None);
    let ls = ls.mark(5);
    assert_eq!(ls.start_time_b32, Some(5));
    assert_eq!(ls.end_time_b32, Some(10));

    // A third mark starts over
    let ls = ls.mark(20);
    assert_eq!(ls.start_time_b32, Some(20));
    assert_eq!(ls.end_time_b32, None);
}

#[test]
fn loop_state_modes() {
    let ls = LoopState::new();
    assert!(!ls.is_looping());
    let ls = ls.toggle_mode();
    assert_eq!(ls.mode, LoopMode::Looping);
    // Looping needs both marks
    assert!(!ls.is_looping());
    let ls = ls.mark(0).mark(32);
    assert!(ls.is_looping());
    let ls = ls.toggle_mode();
    assert_eq!(ls.mode, LoopMode::Disabled);
    assert!(!ls.is_looping());
    let ls = ls.set_mode(LoopMode::Looping);
    assert!(ls.is_looping());
    let ls = ls.clear();
    assert!(!ls.is_looping());
    assert_eq!(ls.start_time_b32, None);
}

#[test]
fn resolution_steps() {
    assert_eq!(Resolution::Time1_4.duration_b32(), 8);
    assert_eq!(Resolution::Time1_32.duration_b32(), 1);
    assert_eq!(Resolution::Time1_16.bar_length_in_beats(), 16);
    assert_eq!(Resolution::Time1_16.as_str(), "1/16");
    assert!(matches!(Resolution::Time1_16.next_up(), Resolution::Time1_32));
    assert!(matches!(Resolution::Time1_32.next_up(), Resolution::Time1_32));
    assert!(matches!(Resolution::Time1_8.next_down(), Resolution::Time1_4));
    assert!(matches!(Resolution::Time1_4.next_down(), Resolution::Time1_4));
}

#[test]
fn cursor_movement_and_alignment() {
    let c = Cursor::new(Pitch::new(Tone::C, 4), 0);
    assert_eq!(c.time_point(), 0);

    let c = c.right(2).right(2);
    assert_eq!(c.time_point(), 4);
    let c = c.left(2);
    assert_eq!(c.time_point(), 2);
    // Clamped at zero
    let c = c.left(2).left(2);
    assert_eq!(c.time_point(), 0);

    // Re-alignment snaps down to the grid
    let c = c.right(2).right(2); // 4
    let c = c.resolution_align(8);
    assert_eq!(c.time_point(), 0);

    let c = c.up();
    assert_eq!(c.pitch(), Pitch::new(Tone::Cs, 4));
    let c = c.down().down();
    assert_eq!(c.pitch(), Pitch::new(Tone::B, 3));
}

#[test]
fn cursor_pitch_boundaries() {
    let c = Cursor::new(Pitch::new(Tone::B, 8), 0).up();
    assert_eq!(c.pitch(), Pitch::new(Tone::B, 8));
    let c = Cursor::new(Pitch::new(Tone::C, 0), 0).down();
    assert_eq!(c.pitch(), Pitch::new(Tone::C, 0));
}

#[test]
fn cursor_insert_mode_blocks_left() {
    let c = Cursor::new(Pitch::new(Tone::C, 4), 8).start_insert();
    assert!(matches!(c.mode(), CursorMode::Insert(8)));
    // At the anchored onset, left is a no-op
    let c = c.left(2);
    assert_eq!(c.time_point(), 8);
    let c = c.right(2).left(2);
    assert_eq!(c.time_point(), 8);
    let c = c.end_insert();
    assert!(matches!(c.mode(), CursorMode::Move));
    let c = c.left(2);
    assert_eq!(c.time_point(), 6);
}

#[test]
fn cursor_selection_normalizes() {
    // Drag a selection up-left: anchor below and after the cursor
    let c = Cursor::new(Pitch::new(Tone::C, 4), 16).start_select();
    let c = c.left(2).left(2).up().up();
    let sel = c.selection_range().unwrap();
    assert_eq!(sel.time_point_start_b32, 12);
    assert_eq!(sel.time_point_end_b32, 16);
    assert_eq!(sel.pitch_low, Pitch::new(Tone::C, 4));
    assert_eq!(sel.pitch_high, Pitch::new(Tone::D, 4));

    // Outside selection mode there is no range
    assert!(c.cancel().selection_range().is_none());
}

#[test]
fn cursor_visibility() {
    let c = Cursor::new(Pitch::new(Tone::C, 4), 4);
    assert!(!c.visible());
    let c = c.show();
    assert!(c.visible());
    assert!(c.visible_at(Pitch::new(Tone::C, 4), 4));
    assert!(!c.visible_at(Pitch::new(Tone::C, 4), 6));
    assert!(!c.visible_at(Pitch::new(Tone::D, 4), 4));

    // In insert mode the whole row from the anchor is lit
    let c = c.start_insert().right(2).right(2);
    assert!(c.visible_at(Pitch::new(Tone::C, 4), 4));
    assert!(c.visible_at(Pitch::new(Tone::C, 4), 6));
    assert!(c.visible_at(Pitch::new(Tone::C, 4), 8));
    assert!(!c.visible_at(Pitch::new(Tone::C, 4), 9));
    assert!(!c.visible_at(Pitch::new(Tone::D, 4), 6));

    // In select mode the whole rectangle is lit
    let c = c.cancel().start_select().right(2).up();
    assert!(c.visible_at(Pitch::new(Tone::C, 4), 8));
    assert!(c.visible_at(Pitch::new(Tone::Cs, 4), 10));
    assert!(!c.visible_at(Pitch::new(Tone::D, 4), 9));

    let c = c.conceal();
    assert!(!c.visible_at(Pitch::new(Tone::C, 4), 8));
}

#[test]
fn viewport_navigation() {
    let vp = ScoreViewport::new(Pitch::new(Tone::C, 4), Resolution::Time1_16, 0, 0);
    let vp = vp.next_octave();
    assert_eq!(vp.middle_pitch, Pitch::new(Tone::Cs, 4));
    let vp = vp.prev_octave().prev_octave();
    assert_eq!(vp.middle_pitch, Pitch::new(Tone::B, 3));

    let vp = vp.increase_resolution();
    assert!(matches!(vp.resolution, Resolution::Time1_32));
    let vp = vp.decrease_resolution().decrease_resolution();
    assert!(matches!(vp.resolution, Resolution::Time1_8));

    let vp = vp.set_time_point(64).set_playback_time(100);
    assert_eq!(vp.time_point, 64);
    assert_eq!(vp.playback_time_point, 100);

    // Playhead past the middle of the drawn window scrolls forward
    let drawn = ViewportDrawResult {
        pitch_low: Pitch::new(Tone::C, 3),
        pitch_high: Pitch::new(Tone::C, 5),
        time_point_start: 64,
        time_point_end: 128,
    };
    let vp = vp.next_bar(&drawn);
    assert_eq!(vp.time_point, 96);
    // Playhead after the middle: prev_bar does nothing
    let vp2 = vp.prev_bar(&drawn);
    assert_eq!(vp2.time_point, 96);
    // Playhead before the middle: prev_bar scrolls back
    let vp3 = vp.set_playback_time(70).prev_bar(&drawn);
    assert_eq!(vp3.time_point, 64);
}

#[test]
fn selection_buffer_translate() {
    let empty = SelectionBuffer::Empty;
    assert!(matches!(empty.translate_to(32), SelectionBuffer::Empty));

    let mut score = Score::new(120);
    score.insert(Pitch::new(Tone::C, 4), 8, 16);
    let buffer = SelectionBuffer::Score(score);
    match buffer.translate_to(32) {
        SelectionBuffer::Score(moved) => {
            assert_eq!(moved.notes_starting_at_time(8).len(), 0);
            assert_eq!(moved.notes_starting_at_time(32).len(), 1);
            assert_eq!(moved.notes_starting_at_time(32)[0].duration_b32, 16);
        }
        SelectionBuffer::Empty => panic!("buffer lost its score"),
    }
}

#[test]
fn player_clock_advances_after_750_samples() {
    // One C4 note over [0, 32) at 120 bpm and 48000 Hz:
    // 48000 * 60 / 120 / 32 = 750 sample ticks per 32nd note
    let mut score = Score::new(120);
    score.insert(Pitch::new(Tone::C, 4), 0, 32);

    let mut player = Player::create(&score, 48000);
    assert_eq!(player.state(), PlayState::Stopped);
    player.set_time_b32(0, &score);
    assert_eq!(player.active_notes().len(), 1);

    player.toggle_playback();
    assert!(player.is_playing());
    for _ in 0..749 {
        player.advance(&score);
    }
    assert_eq!(player.current_time_b32(), 0);
    player.advance(&score);
    assert_eq!(player.current_time_b32(), 1);
    assert_eq!(player.active_notes().len(), 1);
}

#[test]
fn player_stops_at_end_of_song() {
    let mut score = Score::new(120);
    score.insert(Pitch::new(Tone::C, 4), 0, 2);

    let mut player = Player::create(&score, 48000);
    player.set_time_b32(0, &score);
    player.play();
    // Two 32nd notes of material: the clock hits 2 after 1500 samples and
    // the song is over
    for _ in 0..1500 {
        player.advance(&score);
    }
    assert_eq!(player.state(), PlayState::Stopped);
    assert_eq!(player.current_time_b32(), 0);
    assert_eq!(player.active_notes().len(), 0);
}

#[test]
fn player_loops_back_to_start() {
    let mut score = Score::new(120);
    score.insert(Pitch::new(Tone::C, 4), 0, 32);

    let mut player = Player::create(&score, 48000);
    player.set_time_b32(0, &score);
    player.set_loop_state(LoopState::new().mark(2).mark(4).set_mode(LoopMode::Looping));
    player.play();
    // The first boundary advances to 1, before the start mark: snap to 2
    for _ in 0..750 {
        player.advance(&score);
    }
    assert_eq!(player.current_time_b32(), 2);
    // Two more boundaries reach the end mark at 4: snap to 2 again
    for _ in 0..2 * 750 {
        player.advance(&score);
    }
    assert_eq!(player.current_time_b32(), 2);
    for _ in 0..750 {
        player.advance(&score);
    }
    assert_eq!(player.current_time_b32(), 3);
}

#[test]
fn player_toggle_and_pause() {
    let score = Score::new(120);
    let mut player = Player::create(&score, 44100);
    player.toggle_playback();
    assert_eq!(player.state(), PlayState::Playing);
    player.toggle_playback();
    assert_eq!(player.state(), PlayState::Paused);
    player.toggle_playback();
    player.stop();
    assert_eq!(player.state(), PlayState::Stopped);
    // While not playing, advancing changes nothing
    player.advance(&score);
    assert_eq!(player.current_time_b32(), 0);
}

#[test]
fn score_player_walks_the_song() {
    let mut score = Score::new(120);
    score.insert(Pitch::new(Tone::C, 4), 0, 2);
    let mut walker = ScorePlayer::create(score);

    let first = walker.next().unwrap();
    assert_eq!(first.len(), 1);
    assert_eq!(first[0].state, NoteState::Onset);
    let second = walker.next().unwrap();
    assert_eq!(second[0].state, NoteState::Release);
    assert!(walker.next().is_none());

    walker.reset();
    assert_eq!(walker.next().unwrap().len(), 1);
}
