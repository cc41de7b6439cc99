use terminal_piano::notes::{
    midi_note_to_note_name, note_name_to_midi_note, Note, NoteError, NoteName, NoteType,
};

#[test]
fn test_midi_note_conversion() {
    let (note, octave) = midi_note_to_note_name(69);
    assert_eq!(note, "A");
    assert_eq!(octave, 5);

    assert_eq!(note_name_to_midi_note("A", 5).unwrap(), 69);
    assert_eq!(note_name_to_midi_note("C", 4).unwrap(), 60);
}

#[test]
fn octaves_are_counted_from_a() {
    assert_eq!(note_name_to_midi_note("A", 4).unwrap(), 57);
    assert_eq!(note_name_to_midi_note("B", 4).unwrap(), 59);
    assert_eq!(note_name_to_midi_note("G#", 4).unwrap(), 68);
    assert_eq!(note_name_to_midi_note("C", 0).unwrap(), 12);
    assert_eq!(note_name_to_midi_note("A", 0).unwrap(), 9);
    assert_eq!(note_name_to_midi_note("G", 19).unwrap(), 247);
    assert_eq!(note_name_to_midi_note("B", 20).unwrap(), 251);
}

#[test]
fn pitch_classes_repeat_every_octave() {
    let names = [
        NoteName::C,
        NoteName::CSharp,
        NoteName::D,
        NoteName::DSharp,
        NoteName::E,
        NoteName::F,
        NoteName::FSharp,
        NoteName::G,
        NoteName::GSharp,
        NoteName::A,
        NoteName::ASharp,
        NoteName::B,
    ];
    for n in 0..=255u8 {
        assert_eq!(NoteName::from_midi(n), names[(n % 12) as usize]);
    }
}

#[test]
fn black_keys_are_the_sharps() {
    assert!(NoteName::CSharp.is_black_key());
    assert!(NoteName::DSharp.is_black_key());
    assert!(NoteName::FSharp.is_black_key());
    assert!(NoteName::GSharp.is_black_key());
    assert!(NoteName::ASharp.is_black_key());
    assert!(!NoteName::C.is_black_key());
    assert!(!NoteName::E.is_black_key());
    assert!(!NoteName::B.is_black_key());
}

#[test]
fn written_names() {
    assert_eq!(NoteName::C.to_string(), "C");
    assert_eq!(NoteName::FSharp.to_string(), "F#");
    assert_eq!(NoteName::ASharp.to_string(), "A#");
    assert_eq!(NoteName::B.to_string(), "B");
}

#[test]
fn note_new_fields() {
    let n = Note::new(61);
    assert_eq!(n.midi_note, 61);
    assert_eq!(n.octave, 5);
    assert_eq!(n.note_name, NoteName::CSharp);
    assert_eq!(n.note_type, NoteType::Black);
    let w = Note::new(64);
    assert_eq!(w.note_name, NoteName::E);
    assert_eq!(w.note_type, NoteType::White);
    assert_eq!(Note::new(0).octave, 0);
    assert_eq!(Note::new(255).octave, 21);
}

#[test]
fn names_in_either_case_with_sharps_and_flats() {
    assert_eq!(note_name_to_midi_note("c#", 4).unwrap(), 61);
    assert_eq!(note_name_to_midi_note("Db", 4).unwrap(), 61);
    assert_eq!(note_name_to_midi_note("DB", 4).unwrap(), 61);
    assert_eq!(note_name_to_midi_note("eb", 0).unwrap(), 15);
    assert_eq!(note_name_to_midi_note("bb", 1).unwrap(), 22);
    assert_eq!(note_name_to_midi_note("b", 10).unwrap(), 131);
    assert_eq!(note_name_to_midi_note("g#", 2).unwrap(), 44);
}

#[test]
fn unknown_names_are_errors_carrying_the_name() {
    for bad in ["H", "E#", "B#", "Cb", "Fb", "", "C##", "do", "ß", "ｃ"] {
        assert_eq!(
            note_name_to_midi_note(bad, 4),
            Err(NoteError::InvalidNoteName(bad.to_string()))
        );
    }
}

#[test]
fn naming_round_trip_for_every_note() {
    for n in 9..=255u8 {
        let (name, octave) = midi_note_to_note_name(n);
        assert_eq!(octave, n / 12);
        assert_eq!(note_name_to_midi_note(&name, (n - 9) / 12).unwrap(), n);
    }
}

/// The names accepted are compared letter by letter in ASCII case; no other
/// character has one of their letters, or `#`, as its upper case.
#[test]
fn only_ascii_characters_upper_case_to_note_letters() {
    let targets = ['A', 'B', 'C', 'D', 'E', 'F', 'G', '#'];
    for code in 0u32..=0x10FFFF {
        if let Some(c) = char::from_u32(code) {
            let upper: Vec<char> = c.to_uppercase().collect();
            if upper.len() == 1 && targets.contains(&upper[0]) {
                assert!(c.is_ascii(), "{:?} upper-cases to {:?}", c, upper);
            }
        }
    }
}

/// Comparing without regard to ASCII case reads every candidate name as
/// upper-casing it would.
#[test]
fn ascii_case_matches_unicode_upper_case_on_short_names() {
    let accepted = [
        "C", "C#", "DB", "D", "D#", "EB", "E", "F", "F#", "GB", "G", "G#", "AB", "A", "A#", "BB",
        "B",
    ];
    let letters = ['a', 'b', 'c', 'd', 'e', 'f', 'g', 'A', 'B', 'C', 'D', 'E', 'F', 'G', '#', 'h', 'x'];
    for &x in &letters {
        let one: String = x.to_string();
        let expect = accepted.contains(&one.to_uppercase().as_str());
        assert_eq!(note_name_to_midi_note(&one, 1).is_ok(), expect);
        for &y in &letters {
            let two: String = [x, y].iter().collect();
            let expect = accepted.contains(&two.to_uppercase().as_str());
            assert_eq!(note_name_to_midi_note(&two, 1).is_ok(), expect, "{}", two);
        }
    }
}
