use std::collections::HashMap;
use std::time::Instant;
use terminal_piano::notes::{Note, NoteType};
use terminal_piano::piano::{Piano, PianoLayout};

#[test]
fn keys_of_octave_four() {
    let piano = Piano::new();
    assert_eq!(piano.current_octave, 4);
    assert!(!piano.sustain_pedal);
    assert!(piano.pressed_keys.is_empty());
    assert_eq!(piano.get_midi_note_from_key('q'), Some(48));
    assert_eq!(piano.get_midi_note_from_key('2'), Some(49));
    assert_eq!(piano.get_midi_note_from_key('u'), Some(59));
    assert_eq!(piano.get_midi_note_from_key('a'), Some(60));
    assert_eq!(piano.get_midi_note_from_key('='), Some(70));
    assert_eq!(piano.get_midi_note_from_key('j'), Some(71));
    assert_eq!(piano.get_midi_note_from_key('z'), Some(36));
    assert_eq!(piano.get_midi_note_from_key('m'), Some(47));
    for unbound in ['i', 'o', 'p', '9', '0', 'k', 'l', ';', 'Q', ' '] {
        assert_eq!(piano.get_midi_note_from_key(unbound), None);
    }
    assert_eq!(piano.key_mappings.len(), 31);
}

#[test]
fn octave_changes_clamp_and_rebind() {
    let mut piano = Piano::new();
    piano.change_octave(1);
    assert_eq!(piano.current_octave, 5);
    assert_eq!(piano.get_midi_note_from_key('q'), Some(60));
    piano.change_octave(100);
    assert_eq!(piano.current_octave, 8);
    assert_eq!(piano.get_midi_note_from_key('q'), Some(96));
    assert_eq!(piano.get_midi_note_from_key('j'), Some(119));
    piano.change_octave(-100);
    assert_eq!(piano.current_octave, 0);
    assert_eq!(piano.get_midi_note_from_key('q'), Some(0));
    assert_eq!(piano.get_midi_note_from_key('z'), Some(0));
    assert_eq!(piano.get_midi_note_from_key('m'), Some(0));
    assert_eq!(piano.get_octave_range(), (0, 12));
}

#[test]
fn top_octaves_drop_keys_past_127() {
    let mut piano = Piano::new();
    piano.current_octave = 10;
    piano.change_octave(0);
    assert_eq!(piano.current_octave, 8);
    let mut high = Piano::new();
    high.current_octave = 9;
    high.change_octave(1);
    assert_eq!(high.current_octave, 8);
}

#[test]
fn sustain_holds_notes_until_lifted() {
    let mut piano = Piano::new();
    piano.press_key(60);
    piano.press_key(64);
    piano.release_key(60);
    assert!(!piano.pressed_keys.contains_key(&60));
    assert!(piano.pressed_keys.contains_key(&64));
    piano.toggle_sustain();
    assert!(piano.sustain_pedal);
    piano.press_key(67);
    piano.release_key(67);
    assert!(piano.pressed_keys.contains_key(&67));
    piano.update();
    assert_eq!(piano.pressed_keys.len(), 2);
    piano.toggle_sustain();
    assert!(!piano.sustain_pedal);
    assert!(piano.pressed_keys.is_empty());
}

#[test]
fn update_keeps_fresh_and_drops_old_presses() {
    let mut piano = Piano::new();
    piano.press_key(60);
    piano
        .pressed_keys
        .insert(62, Instant::now() - std::time::Duration::from_millis(1000));
    piano.update();
    assert!(piano.pressed_keys.contains_key(&60));
    assert!(!piano.pressed_keys.contains_key(&62));
}

#[test]
fn key_layout_is_sorted_by_note() {
    let mut piano = Piano::new();
    piano.press_key(48);
    let layout = piano.get_key_layout();
    assert_eq!(layout.len(), 31);
    for w in layout.windows(2) {
        assert!(w[0].1.midi_note <= w[1].1.midi_note);
    }
    assert_eq!(layout[0], ('z', Note::new(36), false));
    let q = layout.iter().find(|r| r.0 == 'q').unwrap();
    assert_eq!(*q, ('q', Note::new(48), true));
}

/// The layout computed another way: a black key is three fifths of a white
/// key by floating point, and keys are looked up in a map from notes to
/// computer keys.
fn float_layout(piano: &Piano, terminal_width: u16) -> (Vec<(u8, u16, u16, bool, Option<char>)>, Vec<(u8, u16, u16, bool, Option<char>)>) {
    let usable_width = terminal_width.saturating_sub(4);
    let max_white_keys = usable_width / 6;
    let max_octaves = std::cmp::max(2, max_white_keys / 7);
    let octave_count = std::cmp::min(7, max_octaves);
    let total_white_keys = octave_count * 7;
    let key_width = usable_width / total_white_keys;
    let black_key_width = std::cmp::max(3, (key_width as f32 * 0.6) as u16);
    let char_to_key: HashMap<u8, char> = piano.key_mappings.iter().map(|&(k, v)| (v, k)).collect();
    let mut white = Vec::new();
    let mut black = Vec::new();
    let mut white_key_index = 0;
    for midi_note in 48..(48 + octave_count * 12).min(127) {
        let midi_note = midi_note as u8;
        let note = Note::new(midi_note);
        let is_pressed = piano.pressed_keys.contains_key(&midi_note);
        let key_char = char_to_key.get(&midi_note).copied();
        match note.note_type {
            NoteType::White => {
                white.push((midi_note, 2 + white_key_index * key_width, key_width, is_pressed, key_char));
                white_key_index += 1;
            }
            NoteType::Black => {
                let white_key_x = if white_key_index > 0 { 2 + (white_key_index - 1) * key_width } else { 2 };
                black.push((midi_note, white_key_x + key_width - black_key_width / 2, black_key_width, is_pressed, key_char));
            }
        }
    }
    (white, black)
}

#[test]
fn layout_matches_float_computation_for_all_widths() {
    let mut piano = Piano::new();
    piano.press_key(50);
    piano.press_key(61);
    for width in (0..=700u16).chain([1000, 5000, 65535]) {
        let layout = PianoLayout::new(&piano, width);
        let (white, black) = float_layout(&piano, width);
        let got_white: Vec<_> = layout.white_keys.iter().map(|k| (k.note.midi_note, k.x, k.width, k.is_pressed, k.key_char)).collect();
        let got_black: Vec<_> = layout.black_keys.iter().map(|k| (k.note.midi_note, k.x, k.width, k.is_pressed, k.key_char)).collect();
        assert_eq!(got_white, white, "width {}", width);
        assert_eq!(got_black, black, "width {}", width);
        assert_eq!(layout.width, width);
        assert_eq!(layout.height, 12);
    }
}

#[test]
fn layout_of_a_hundred_columns() {
    let piano = Piano::new();
    let layout = PianoLayout::new(&piano, 100);
    assert_eq!(layout.white_keys.len(), 14);
    assert_eq!(layout.black_keys.len(), 10);
    assert_eq!(layout.white_keys[0].x, 2);
    assert_eq!(layout.white_keys[0].width, 6);
    assert_eq!(layout.white_keys[1].x, 8);
    assert_eq!(layout.black_keys[0].x, 7);
    assert_eq!(layout.black_keys[0].width, 3);
    assert_eq!(layout.white_keys[0].key_char, Some('q'));
    assert_eq!(layout.black_keys[0].key_char, Some('2'));
    let last = layout.white_keys.last().unwrap();
    assert!(last.x + last.width <= 100 - 2);
}

#[test]
fn widest_layout_shows_seven_octaves_up_to_f_sharp_9() {
    let piano = Piano::new();
    let layout = PianoLayout::new(&piano, 1000);
    assert_eq!(layout.white_keys.len(), 46);
    assert_eq!(layout.black_keys.len(), 33);
    assert_eq!(layout.white_keys.last().unwrap().note.midi_note, 125);
    assert_eq!(layout.black_keys.last().unwrap().note.midi_note, 126);
}

/// Three fifths by integer division rounds down exactly as the product with
/// `0.6` in `f32` does, for every `u16`.
#[test]
fn three_fifths_matches_float_product() {
    for k in 0..=u16::MAX {
        assert_eq!((k as f32 * 0.6) as u16, ((k as u32) * 3 / 5) as u16);
    }
}

#[test]
fn above_octave_zero_every_key_plays_its_own_note() {
    for octave in 1..=8i8 {
        let mut piano = Piano::new();
        piano.change_octave(octave - 4);
        assert_eq!(piano.current_octave as i8, octave);
        let mut notes: Vec<u8> = piano.key_mappings.iter().map(|&(_, n)| n).collect();
        let count = notes.len();
        notes.sort();
        notes.dedup();
        assert_eq!(notes.len(), count, "octave {}", octave);
    }
}

#[test]
fn white_keys_sit_side_by_side_within_the_terminal() {
    let piano = Piano::new();
    for width in 0..=1200u16 {
        let layout = PianoLayout::new(&piano, width);
        for (i, k) in layout.white_keys.iter().enumerate() {
            assert_eq!(k.x as usize, 2 + i * k.width as usize);
            assert!(k.x + k.width <= width.saturating_sub(4) + 2);
        }
    }
}

#[test]
fn keys_held_three_hundred_milliseconds_are_released() {
    let mut piano = Piano::new();
    piano.press_key(60);
    piano.press_key(62);
    piano.press_key(64);
    piano.release_keys_held_too_long(&vec![(60, 299), (62, 300), (64, 5), (64, 1000), (70, 900)]);
    assert!(piano.pressed_keys.contains_key(&60));
    assert!(!piano.pressed_keys.contains_key(&62));
    assert!(!piano.pressed_keys.contains_key(&64));
    assert_eq!(piano.pressed_keys.len(), 1);
    piano.press_key(62);
    piano.toggle_sustain();
    piano.release_keys_held_too_long(&vec![(60, 5000), (62, 5000)]);
    assert_eq!(piano.pressed_keys.len(), 2);
}

#[test]
fn update_keeps_every_fresh_press_and_nothing_under_the_pedal_goes() {
    let mut piano = Piano::new();
    piano.press_key(60);
    piano.press_key(61);
    piano.update();
    assert_eq!(piano.pressed_keys.len(), 2);
    piano
        .pressed_keys
        .insert(62, Instant::now() - std::time::Duration::from_millis(300));
    piano.toggle_sustain();
    piano.update();
    assert_eq!(piano.pressed_keys.len(), 3);
    piano.sustain_pedal = false;
    piano.update();
    assert_eq!(piano.pressed_keys.len(), 2);
    assert!(!piano.pressed_keys.contains_key(&62));
}
