use midly::num::u7;
use midly::MidiMessage;
use std::path::PathBuf;
use terminal_piano::midi_file::{EntryKind, MidiFile, MidiTiming, TrackEntry};
use terminal_piano::player::{LoadError, MidiPlayer, ToggleAction};

fn on(key: u8) -> MidiMessage {
    MidiMessage::NoteOn { key: u7::new(key), vel: u7::new(100) }
}

fn off(key: u8) -> MidiMessage {
    MidiMessage::NoteOff { key: u7::new(key), vel: u7::new(64) }
}

fn entry(delta: u32, kind: EntryKind) -> TrackEntry {
    TrackEntry { delta, kind }
}

/// A format 1 file of two tracks at 480 ticks per quarter note.
fn two_track_smf() -> Vec<u8> {
    let mut b = Vec::new();
    b.extend_from_slice(b"MThd");
    b.extend_from_slice(&[0, 0, 0, 6, 0, 1, 0, 2, 0x01, 0xE0]);
    b.extend_from_slice(b"MTrk");
    b.extend_from_slice(&[0, 0, 0, 20]);
    b.extend_from_slice(&[0x00, 0xFF, 0x51, 0x03, 0x07, 0xA1, 0x20]);
    b.extend_from_slice(&[0x00, 0x90, 0x3C, 0x64]);
    b.extend_from_slice(&[0x83, 0x60, 0x80, 0x3C, 0x40]);
    b.extend_from_slice(&[0x00, 0xFF, 0x2F, 0x00]);
    b.extend_from_slice(b"MTrk");
    b.extend_from_slice(&[0, 0, 0, 21]);
    b.extend_from_slice(&[0x00, 0xFF, 0x51, 0x03, 0x0F, 0x42, 0x40]);
    b.extend_from_slice(&[0x81, 0x70, 0x90, 0x40, 0x50]);
    b.extend_from_slice(&[0x81, 0x70, 0x80, 0x40, 0x00]);
    b.extend_from_slice(&[0x00, 0xFF, 0x2F, 0x00]);
    b
}

fn timeline(player: &MidiPlayer) -> Vec<(u64, MidiMessage)> {
    player.events.iter().map(|e| (e.absolute_time, e.event)).collect()
}

#[test]
fn new_player_defaults() {
    let p = MidiPlayer::new();
    assert!(p.current_file.is_none());
    assert!(p.events.is_empty());
    assert!(!p.is_playing);
    assert!(p.start_time.is_none());
    assert_eq!(p.current_position, 0);
    assert_eq!(p.tempo, 500000);
    assert_eq!(p.ticks_per_quarter, 480);
    assert_eq!(p.total_ticks, 0);
    assert!(!p.is_loop_enabled());
}

#[test]
fn loading_bytes_merges_tracks_by_tick() {
    let mut p = MidiPlayer::new();
    p.load_bytes(PathBuf::from("song.mid"), &two_track_smf()).unwrap();
    assert_eq!(p.current_file, Some(PathBuf::from("song.mid")));
    assert_eq!(p.ticks_per_quarter, 480);
    assert_eq!(p.tempo, 1_000_000);
    assert_eq!(p.total_ticks, 480);
    assert_eq!(
        timeline(&p),
        vec![(0, on(60)), (240, MidiMessage::NoteOn { key: u7::new(64), vel: u7::new(80) }), (480, off(60)), (480, MidiMessage::NoteOff { key: u7::new(64), vel: u7::new(0) })]
    );
    let deltas: Vec<u32> = p.events.iter().map(|e| e.delta_time).collect();
    assert_eq!(deltas, vec![0, 240, 480, 240]);
}

#[test]
fn refused_bytes_leave_the_player_alone() {
    let mut p = MidiPlayer::new();
    p.load_bytes(PathBuf::from("song.mid"), &two_track_smf()).unwrap();
    let r = p.load_bytes(PathBuf::from("junk.mid"), b"not a midi file");
    assert!(matches!(r, Err(LoadError::Midi(_))));
    assert_eq!(p.current_file, Some(PathBuf::from("song.mid")));
    assert_eq!(p.events.len(), 4);
}

#[test]
fn loading_keeps_track_order_on_equal_ticks_and_last_tempo() {
    let mut p = MidiPlayer::new();
    p.set_loop(true);
    p.current_position = 77;
    let file = MidiFile {
        timing: MidiTiming::Timecode(25, 40),
        tracks: vec![
            vec![entry(10, EntryKind::Midi(on(1))), entry(0, EntryKind::Tempo(300)), entry(5, EntryKind::Midi(on(2)))],
            vec![entry(10, EntryKind::Midi(on(3))), entry(3, EntryKind::Meta), entry(2, EntryKind::Midi(on(4)))],
            vec![entry(0, EntryKind::Midi(on(5))), entry(20, EntryKind::Tempo(700))],
        ],
    };
    p.load_midi_file(PathBuf::from("x.mid"), file);
    assert_eq!(
        timeline(&p),
        vec![(0, on(5)), (10, on(1)), (10, on(3)), (15, on(2)), (15, on(4))]
    );
    assert_eq!(p.tempo, 700);
    assert_eq!(p.ticks_per_quarter, 1000);
    assert_eq!(p.total_ticks, 15);
    assert_eq!(p.current_position, 0);
    assert!(p.is_loop_enabled());
    assert!(!p.is_playing);
}

#[test]
fn a_file_without_tempo_keeps_the_tempo() {
    let mut p = MidiPlayer::new();
    p.tempo = 123;
    p.load_midi_file(PathBuf::from("a.mid"), MidiFile { timing: MidiTiming::Metrical(96), tracks: vec![vec![]] });
    assert_eq!(p.tempo, 123);
    assert_eq!(p.ticks_per_quarter, 96);
    assert_eq!(p.total_ticks, 0);
    assert!(p.events.is_empty());
}

fn playing(events: usize) -> MidiPlayer {
    let mut p = MidiPlayer::new();
    let track: Vec<TrackEntry> = (0..events).map(|i| entry(if i == 0 { 0 } else { 10 }, EntryKind::Midi(on(i as u8)))).collect();
    p.load_midi_file(PathBuf::from("p.mid"), MidiFile { timing: MidiTiming::Metrical(480), tracks: vec![track] });
    p.play();
    p
}

#[test]
fn advancing_hands_out_at_most_ten_due_events() {
    let mut p = playing(15);
    assert!(p.is_playing && p.start_time.is_some());
    let step = p.advance_to_tick(1000);
    assert_eq!(step.messages.len(), 10);
    assert_eq!(step.messages[0], on(0));
    assert_eq!(p.events.len(), 5);
    assert_eq!(p.current_position, 1000);
    assert!(!step.restart);
    let step = p.advance_to_tick(1000);
    assert_eq!(step.messages.len(), 5);
    assert!(p.events.is_empty());
    assert!(!p.is_playing);
    assert!(!step.restart);
}

#[test]
fn advancing_stops_at_the_first_later_event() {
    let mut p = playing(5);
    let step = p.advance_to_tick(15);
    assert_eq!(step.messages, vec![on(0), on(1)]);
    assert_eq!(p.current_position, 15);
    let step = p.advance_to_tick(20);
    assert_eq!(step.messages, vec![on(2)]);
    assert_eq!(p.current_position, 20);
    let step = p.advance_to_tick(5);
    assert!(step.messages.is_empty());
    assert_eq!(p.current_position, 20);
    assert!(p.is_playing);
}

#[test]
fn a_looping_player_asks_to_restart_at_the_end() {
    let mut p = playing(2);
    p.set_loop(true);
    let step = p.advance_to_tick(100);
    assert_eq!(step.messages.len(), 2);
    assert!(step.restart);
    assert!(p.is_playing);
}

#[test]
fn nothing_is_due_while_paused() {
    let mut p = playing(3);
    p.pause();
    assert!(!p.is_playing);
    assert!(p.start_time.is_some());
    let step = p.advance_to_tick(1000);
    assert!(step.messages.is_empty());
    assert_eq!(p.events.len(), 3);
}

#[test]
fn toggling_pauses_and_asks_to_play() {
    let mut p = playing(3);
    assert_eq!(p.toggle_action(), ToggleAction::Paused);
    assert!(!p.is_playing);
    assert_eq!(p.toggle_action(), ToggleAction::Play { reload: false });
    let mut done = playing(1);
    done.advance_to_tick(10);
    assert_eq!(done.toggle_action(), ToggleAction::Play { reload: true });
    let mut empty = MidiPlayer::new();
    assert_eq!(empty.toggle_action(), ToggleAction::Play { reload: false });
    empty.play();
    assert!(!empty.is_playing);
}

#[test]
fn rewinding_resets_the_position() {
    let mut p = playing(3);
    p.advance_to_tick(12);
    assert!(p.rewind());
    assert!(!p.is_playing);
    assert!(p.start_time.is_none());
    assert_eq!(p.current_position, 0);
    assert!(!MidiPlayer::new().rewind());
}

#[test]
fn skipping_drops_events_up_to_the_target() {
    let mut p = playing(5);
    p.skip_to_tick(25);
    assert_eq!(p.events.len(), 2);
    assert_eq!(p.current_position, 20);
    let mut q = playing(5);
    q.current_position = 7;
    q.skip_to_tick(0);
    assert_eq!(q.events.len(), 4);
    assert_eq!(q.current_position, 0);
    let mut r = playing(5);
    r.skip_to_tick(1000);
    assert!(r.events.is_empty());
    assert_eq!(r.current_position, 40);
}

#[test]
fn large_deltas_accumulate_in_u64() {
    let mut p = MidiPlayer::new();
    let file = MidiFile {
        timing: MidiTiming::Metrical(480),
        tracks: vec![vec![entry(u32::MAX, EntryKind::Midi(on(1))), entry(u32::MAX, EntryKind::Midi(on(2)))]],
    };
    p.load_midi_file(PathBuf::from("long.mid"), file);
    assert_eq!(timeline(&p), vec![(4294967295, on(1)), (8589934590, on(2))]);
    assert_eq!(p.total_ticks, 8589934590);
}

#[test]
fn loaded_events_end_by_the_total_and_come_out_in_order() {
    let mut p = MidiPlayer::new();
    p.load_bytes(PathBuf::from("song.mid"), &two_track_smf()).unwrap();
    assert!(p.events.iter().all(|e| e.absolute_time <= p.total_ticks));
    p.play();
    let mut ticks = Vec::new();
    for tick in [0u64, 100, 240, 479, 480] {
        let before: Vec<u64> = p.events.iter().map(|e| e.absolute_time).collect();
        let step = p.advance_to_tick(tick);
        ticks.extend(before.iter().take(step.messages.len()).copied());
        assert!(p.events.iter().all(|e| e.absolute_time > tick || ticks.len() % 10 == 0));
    }
    assert_eq!(ticks, vec![0, 240, 480, 480]);
    assert!(!p.is_playing);
}

#[test]
fn loading_the_same_bytes_twice_is_one_load() {
    let mut once = MidiPlayer::new();
    once.load_bytes(PathBuf::from("song.mid"), &two_track_smf()).unwrap();
    let mut twice = MidiPlayer::new();
    twice.load_bytes(PathBuf::from("song.mid"), &two_track_smf()).unwrap();
    twice.play();
    twice.load_bytes(PathBuf::from("song.mid"), &two_track_smf()).unwrap();
    assert_eq!(timeline(&twice), timeline(&once));
    assert_eq!(twice.tempo, once.tempo);
    assert_eq!(twice.ticks_per_quarter, once.ticks_per_quarter);
    assert_eq!(twice.total_ticks, once.total_ticks);
    assert_eq!(twice.current_file, once.current_file);
    assert_eq!(twice.current_position, 0);
    assert!(!twice.is_playing);
    assert!(twice.start_time.is_none());
    assert_eq!(twice.loop_enabled, once.loop_enabled);
}
