use vstd::prelude::*;

verus! {

/// Whether a key of the keyboard is a white or a black one.
#[derive(Debug, Clone, Copy, PartialEq, Eq, Hash, Structural)]
pub enum NoteType {
    White,
    Black,
}

/// The twelve pitch classes of the chromatic scale, starting at C.
#[derive(Debug, Clone, Copy, PartialEq, Eq, Hash, Structural)]
pub enum NoteName {
    C,
    CSharp,
    D,
    DSharp,
    E,
    F,
    FSharp,
    G,
    GSharp,
    A,
    ASharp,
    B,
}

/// A MIDI note together with its octave, pitch class and key colour.
#[derive(Debug, Clone, Copy, PartialEq, Eq, Hash, Structural)]
pub struct Note {
    pub midi_note: u8,
    pub octave: u8,
    pub note_name: NoteName,
    pub note_type: NoteType,
}

/// Errors of the note-name conversions.
#[derive(Debug, Clone, PartialEq, Eq)]
pub enum NoteError {
    /// The given text names no pitch class; it holds that text.
    InvalidNoteName(String),
}

/// The pitch class of a MIDI note: its remainder modulo twelve, C being zero.
pub open spec fn pitch_class_of(midi_note: int) -> NoteName {
    let r = midi_note % 12;
    if r == 0 {
        NoteName::C
    } else if r == 1 {
        NoteName::CSharp
    } else if r == 2 {
        NoteName::D
    } else if r == 3 {
        NoteName::DSharp
    } else if r == 4 {
        NoteName::E
    } else if r == 5 {
        NoteName::F
    } else if r == 6 {
        NoteName::FSharp
    } else if r == 7 {
        NoteName::G
    } else if r == 8 {
        NoteName::GSharp
    } else if r == 9 {
        NoteName::A
    } else if r == 10 {
        NoteName::ASharp
    } else {
        NoteName::B
    }
}

/// The position of a pitch class within the octave, C being zero.
pub open spec fn semitone_of(name: NoteName) -> int {
    match name {
        NoteName::C => 0,
        NoteName::CSharp => 1,
        NoteName::D => 2,
        NoteName::DSharp => 3,
        NoteName::E => 4,
        NoteName::F => 5,
        NoteName::FSharp => 6,
        NoteName::G => 7,
        NoteName::GSharp => 8,
        NoteName::A => 9,
        NoteName::ASharp => 10,
        NoteName::B => 11,
    }
}

/// The sharps are the black keys of the piano.
pub open spec fn is_black_name(name: NoteName) -> bool {
    name == NoteName::CSharp || name == NoteName::DSharp || name == NoteName::FSharp
        || name == NoteName::GSharp || name == NoteName::ASharp
}

/// The written name of a pitch class, with `#` for a sharp.
pub open spec fn name_text(name: NoteName) -> Seq<char> {
    match name {
        NoteName::C => seq!['C'],
        NoteName::CSharp => seq!['C', '#'],
        NoteName::D => seq!['D'],
        NoteName::DSharp => seq!['D', '#'],
        NoteName::E => seq!['E'],
        NoteName::F => seq!['F'],
        NoteName::FSharp => seq!['F', '#'],
        NoteName::G => seq!['G'],
        NoteName::GSharp => seq!['G', '#'],
        NoteName::A => seq!['A'],
        NoteName::ASharp => seq!['A', '#'],
        NoteName::B => seq!['B'],
    }
}

/// The note that `Note::new` builds for a MIDI number.
pub open spec fn note_of(midi_note: u8) -> Note {
    let name = pitch_class_of(midi_note as int);
    Note {
        midi_note,
        octave: (midi_note / 12) as u8,
        note_name: name,
        note_type: if is_black_name(name) { NoteType::Black } else { NoteType::White },
    }
}

/// Semitone of a natural note letter, in either case.
pub open spec fn letter_semitone(c: char) -> Option<int> {
    if c == 'C' || c == 'c' {
        Some(0)
    } else if c == 'D' || c == 'd' {
        Some(2)
    } else if c == 'E' || c == 'e' {
        Some(4)
    } else if c == 'F' || c == 'f' {
        Some(5)
    } else if c == 'G' || c == 'g' {
        Some(7)
    } else if c == 'A' || c == 'a' {
        Some(9)
    } else if c == 'B' || c == 'b' {
        Some(11)
    } else {
        None
    }
}

/// Semitone offset within the octave that a written note name denotes, letters
/// compared without regard to case: a letter `C D E F G A B`, a sharp
/// `C# D# F# G# A#`, or a flat written with `b`: `Db Eb Gb Ab Bb`.
pub open spec fn name_semitone(name: Seq<char>) -> Option<int> {
    if name.len() == 1 {
        letter_semitone(name[0])
    } else if name.len() == 2 {
        match letter_semitone(name[0]) {
            Some(s) => if name[1] == '#' && s != 4 && s != 11 {
                Some(s + 1)
            } else if (name[1] == 'B' || name[1] == 'b') && s != 0 && s != 5 {
                Some(s - 1)
            } else {
                None
            },
            None => None,
        }
    } else {
        None
    }
}

/// The MIDI number of a semitone `s` of the scale from C in a given octave,
/// where octave `o` begins at its A, MIDI number `12 * o + 9`, and runs up
/// through the G# above it: A, A# and B sit at `12 * o + s`, the notes from C
/// to G# at `12 * (o + 1) + s`. So A in octave 5 is 69 and C in octave 4 is 60.
pub open spec fn midi_in_octave(s: int, octave: int) -> int {
    if s >= 9 {
        octave * 12 + s
    } else {
        (octave + 1) * 12 + s
    }
}

/// The MIDI number of a written note name in a given octave.
pub open spec fn midi_of_name(name: Seq<char>, octave: int) -> Option<int> {
    match name_semitone(name) {
        Some(s) => Some(midi_in_octave(s, octave)),
        None => None,
    }
}

impl NoteName {
    /// The pitch class of a MIDI note.
    pub fn from_midi(midi_note: u8) -> (r: NoteName)
        ensures
            r == pitch_class_of(midi_note as int),
            semitone_of(r) == midi_note % 12,
    {
        match midi_note % 12 {
            0 => NoteName::C,
            1 => NoteName::CSharp,
            2 => NoteName::D,
            3 => NoteName::DSharp,
            4 => NoteName::E,
            5 => NoteName::F,
            6 => NoteName::FSharp,
            7 => NoteName::G,
            8 => NoteName::GSharp,
            9 => NoteName::A,
            10 => NoteName::ASharp,
            _ => NoteName::B,
        }
    }

    /// Whether the pitch class is played on a black key.
    pub fn is_black_key(&self) -> (r: bool)
        ensures
            r == is_black_name(*self),
    {
        match self {
            NoteName::CSharp | NoteName::DSharp | NoteName::FSharp | NoteName::GSharp
            | NoteName::ASharp => true,
            _ => false,
        }
    }

    /// The written name of the pitch class.
    pub fn to_string(&self) -> (r: &'static str)
        ensures
            r@ == name_text(*self),
    {
        match self {
            NoteName::C => {
                proof {
                    reveal_strlit("C");
                }
                "C"
            },
            NoteName::CSharp => {
                proof {
                    reveal_strlit("C#");
                }
                "C#"
            },
            NoteName::D => {
                proof {
                    reveal_strlit("D");
                }
                "D"
            },
            NoteName::DSharp => {
                proof {
                    reveal_strlit("D#");
                }
                "D#"
            },
            NoteName::E => {
                proof {
                    reveal_strlit("E");
                }
                "E"
            },
            NoteName::F => {
                proof {
                    reveal_strlit("F");
                }
                "F"
            },
            NoteName::FSharp => {
                proof {
                    reveal_strlit("F#");
                }
                "F#"
            },
            NoteName::G => {
                proof {
                    reveal_strlit("G");
                }
                "G"
            },
            NoteName::GSharp => {
                proof {
                    reveal_strlit("G#");
                }
                "G#"
            },
            NoteName::A => {
                proof {
                    reveal_strlit("A");
                }
                "A"
            },
            NoteName::ASharp => {
                proof {
                    reveal_strlit("A#");
                }
                "A#"
            },
            NoteName::B => {
                proof {
                    reveal_strlit("B");
                }
                "B"
            },
        }
    }
}

impl Note {
    /// The note of a MIDI number: octave is the number divided by twelve.
    pub fn new(midi_note: u8) -> (r: Note)
        ensures
            r == note_of(midi_note),
    {
        let note_name = NoteName::from_midi(midi_note);
        let octave = midi_note / 12;
        let note_type = if note_name.is_black_key() {
            NoteType::Black
        } else {
            NoteType::White
        };
        Note { midi_note, octave, note_name, note_type }
    }
}

fn letter_semitone_exec(c: char) -> (r: Option<u8>)
    ensures
        match letter_semitone(c) {
            Some(s) => r == Some(s as u8),
            None => r is None,
        },
{
    if c == 'C' || c == 'c' {
        Some(0)
    } else if c == 'D' || c == 'd' {
        Some(2)
    } else if c == 'E' || c == 'e' {
        Some(4)
    } else if c == 'F' || c == 'f' {
        Some(5)
    } else if c == 'G' || c == 'g' {
        Some(7)
    } else if c == 'A' || c == 'a' {
        Some(9)
    } else if c == 'B' || c == 'b' {
        Some(11)
    } else {
        None
    }
}

fn name_semitone_exec(name: &str) -> (r: Option<u8>)
    ensures
        match name_semitone(name@) {
            Some(s) => r == Some(s as u8),
            None => r is None,
        },
{
    let len = name.unicode_len();
    if len == 1 {
        letter_semitone_exec(name.get_char(0))
    } else if len == 2 {
        let second = name.get_char(1);
        match letter_semitone_exec(name.get_char(0)) {
            Some(s) => if second == '#' && s != 4 && s != 11 {
                Some(s + 1)
            } else if (second == 'B' || second == 'b') && s != 0 && s != 5 {
                Some(s - 1)
            } else {
                None
            },
            None => None,
        }
    } else {
        None
    }
}

/// The MIDI number of a note name (letters in either case, `#` for sharp,
/// `b` for flat) in an octave, octaves counted from A (`midi_in_octave`):
/// A in octave 5 is 69, C in octave 4 is 60. An unknown name is an error
/// that carries the name.
pub fn note_name_to_midi_note(note_name: &str, octave: u8) -> (r: Result<u8, NoteError>)
    requires
        name_semitone(note_name@) matches Some(s) ==> midi_in_octave(s, octave as int)
            <= u8::MAX,
    ensures
        match midi_of_name(note_name@, octave as int) {
            Some(m) => r == Ok::<u8, NoteError>(m as u8),
            None => r matches Err(NoteError::InvalidNoteName(t)) && t@ == note_name@,
        },
{
    match name_semitone_exec(note_name) {
        Some(s) => if s >= 9 {
            Ok(octave * 12 + s)
        } else {
            Ok((octave + 1) * 12 + s)
        },
        None => Err(NoteError::InvalidNoteName(note_name.to_string())),
    }
}

/// The written name and the octave of a MIDI number.
pub fn midi_note_to_note_name(midi_note: u8) -> (r: (String, u8))
    ensures
        r.0@ == name_text(pitch_class_of(midi_note as int)),
        r.1 == midi_note / 12,
{
    let name = NoteName::from_midi(midi_note);
    let text = name.to_string();
    (text.to_string(), midi_note / 12)
}

/// The natural letter a semitone under a letter that can take a flat:
/// C under D, D under E, F under G, G under A, A under B (upper case).
pub open spec fn letter_below(c: char) -> char {
    if c == 'D' || c == 'd' {
        'C'
    } else if c == 'E' || c == 'e' {
        'D'
    } else if c == 'G' || c == 'g' {
        'F'
    } else if c == 'A' || c == 'a' {
        'G'
    } else {
        'A'
    }
}

/// A flat is one semitone under its letter, and names the same pitch as the
/// sharp of the natural letter below: for each of D E G A B in either case,
/// with `b` or `B`, the flat is the semitone under the letter, equals that
/// sharp (Db = C#, Eb = D#, Gb = F#, Ab = G#, Bb = A#), and so gives the same
/// MIDI number in every octave.
pub proof fn lemma_flat_is_sharp_below(letter: char, flat: char, octave: int)
    requires
        letter == 'D' || letter == 'E' || letter == 'G' || letter == 'A' || letter == 'B'
            || letter == 'd' || letter == 'e' || letter == 'g' || letter == 'a' || letter == 'b',
        flat == 'b' || flat == 'B',
    ensures
        name_semitone(seq![letter, flat]) == Some(letter_semitone(letter)->0 - 1),
        name_semitone(seq![letter, flat]) == name_semitone(seq![letter_below(letter), '#']),
        midi_of_name(seq![letter, flat], octave) == midi_of_name(
            seq![letter_below(letter), '#'],
            octave,
        ),
{
}

/// Reading the written name of a MIDI note back in the octave, counted from
/// A, that holds the note gives the same MIDI number.
pub proof fn lemma_note_name_round_trip(midi_note: u8)
    requires
        midi_note >= 9,
    ensures
        midi_of_name(name_text(pitch_class_of(midi_note as int)), (midi_note - 9) / 12) == Some(
            midi_note as int,
        ),
{
    let name = name_text(pitch_class_of(midi_note as int));
    assert(name_semitone(name) == Some((midi_note % 12) as int));
}

} // verus!
