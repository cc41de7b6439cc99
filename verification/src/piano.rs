use vstd::prelude::*;
use std::collections::HashMap;
use std::time::Instant;
use crate::clock::{clock_now, duration_between, duration_millis, time_between, whole_millis};
use crate::notes::{is_black_name, note_of, pitch_class_of, Note, NoteName, NoteType};

verus! {

broadcast use vstd::std_specs::hash::group_hash_axioms;

/// The computer keys of the upper row with the semitone above the octave's C
/// that each plays: white keys on letters, black keys on digits.
pub open spec fn upper_row_offset(c: char) -> Option<int> {
    if c == 'q' {
        Some(0)
    } else if c == '2' {
        Some(1)
    } else if c == 'w' {
        Some(2)
    } else if c == '3' {
        Some(3)
    } else if c == 'e' {
        Some(4)
    } else if c == 'r' {
        Some(5)
    } else if c == '5' {
        Some(6)
    } else if c == 't' {
        Some(7)
    } else if c == '6' {
        Some(8)
    } else if c == 'y' {
        Some(9)
    } else if c == '7' {
        Some(10)
    } else if c == 'u' {
        Some(11)
    } else {
        None
    }
}

/// The keys of the middle row, one octave above the upper row.
pub open spec fn middle_row_offset(c: char) -> Option<int> {
    if c == 'a' {
        Some(12)
    } else if c == '1' {
        Some(13)
    } else if c == 's' {
        Some(14)
    } else if c == '4' {
        Some(15)
    } else if c == 'd' {
        Some(16)
    } else if c == 'f' {
        Some(17)
    } else if c == '8' {
        Some(18)
    } else if c == 'g' {
        Some(19)
    } else if c == '-' {
        Some(20)
    } else if c == 'h' {
        Some(21)
    } else if c == '=' {
        Some(22)
    } else if c == 'j' {
        Some(23)
    } else {
        None
    }
}

/// The keys of the bottom row, which play the white notes of the octave
/// below, C to B, as a number of semitones under the octave's C.
pub open spec fn lower_row_drop(c: char) -> Option<int> {
    if c == 'z' {
        Some(12)
    } else if c == 'x' {
        Some(10)
    } else if c == 'c' {
        Some(8)
    } else if c == 'v' {
        Some(7)
    } else if c == 'b' {
        Some(5)
    } else if c == 'n' {
        Some(3)
    } else if c == 'm' {
        Some(1)
    } else {
        None
    }
}

/// The MIDI note that a computer key plays when the keyboard sits at
/// `octave`: the upper and middle rows up to note 127, the bottom row
/// clamped at note 0.
pub open spec fn key_binding(octave: int, c: char) -> Option<int> {
    let base = octave * 12;
    match upper_row_offset(c) {
        Some(o) => if base + o <= 127 {
            Some(base + o)
        } else {
            None
        },
        None => match middle_row_offset(c) {
            Some(o) => if base + o <= 127 {
                Some(base + o)
            } else {
                None
            },
            None => match lower_row_drop(c) {
                Some(d) => Some(if base >= d {
                    base - d
                } else {
                    0
                }),
                None => None,
            },
        },
    }
}

/// The note bound to a key in a list of bindings: the last binding of the key.
pub open spec fn key_lookup(entries: Seq<(char, u8)>, c: char) -> Option<u8>
    decreases entries.len(),
{
    if entries.len() == 0 {
        None
    } else if entries.last().0 == c {
        Some(entries.last().1)
    } else {
        key_lookup(entries.drop_last(), c)
    }
}

/// No key is bound twice.
pub open spec fn distinct_keys(entries: Seq<(char, u8)>) -> bool {
    forall|i: int, j: int| 0 <= i < j < entries.len() ==> entries[i].0 != entries[j].0
}

/// The bindings are exactly those of the keyboard at `octave`.
pub open spec fn bindings_of_octave(entries: Seq<(char, u8)>, octave: int) -> bool {
    &&& distinct_keys(entries)
    &&& forall|c: char| #[trigger] key_lookup(entries, c) == opt_u8(key_binding(octave, c))
}

pub open spec fn opt_u8(o: Option<int>) -> Option<u8> {
    match o {
        Some(v) => Some(v as u8),
        None => None,
    }
}

proof fn lemma_lookup_none(entries: Seq<(char, u8)>, c: char)
    ensures
        key_lookup(entries, c) is None <==> forall|i: int|
            0 <= i < entries.len() ==> #[trigger] entries[i].0 != c,
    decreases entries.len(),
{
    if entries.len() > 0 {
        lemma_lookup_none(entries.drop_last(), c);
        if key_lookup(entries, c) is None {
            assert forall|i: int| 0 <= i < entries.len() implies #[trigger] entries[i].0 != c by {
                if i < entries.len() - 1 {
                    assert(entries.drop_last()[i] == entries[i]);
                }
            }
        } else if entries.last().0 != c {
            let i = choose|i: int|
                0 <= i < entries.drop_last().len() && #[trigger] entries.drop_last()[i].0 == c;
            assert(entries[i].0 == c);
        }
    }
}

proof fn lemma_lookup_index(entries: Seq<(char, u8)>, i: int)
    requires
        distinct_keys(entries),
        0 <= i < entries.len(),
    ensures
        key_lookup(entries, entries[i].0) == Some(entries[i].1),
    decreases entries.len(),
{
    if i < entries.len() - 1 {
        assert(entries.drop_last()[i] == entries[i]);
        lemma_lookup_index(entries.drop_last(), i);
    }
}

/// Binds key `c` to `note`, replacing an earlier binding of `c`.
fn bind_key(entries: &mut Vec<(char, u8)>, c: char, note: u8)
    requires
        distinct_keys(old(entries)@),
    ensures
        distinct_keys(final(entries)@),
        forall|k: char| #[trigger] key_lookup(final(entries)@, k) == if k == c {
            Some(note)
        } else {
            key_lookup(old(entries)@, k)
        },
{
    let n = entries.len();
    let mut i: usize = 0;
    while i < n
        invariant
            n == entries@.len(),
            entries@ == old(entries)@,
            distinct_keys(old(entries)@),
            forall|j: int| 0 <= j < i ==> #[trigger] entries@[j].0 != c,
        decreases n - i,
    {
        if entries[i].0 == c {
            let ghost before = entries@;
            entries.set(i, (c, note));
            proof {
                assert(distinct_keys(entries@));
                assert forall|k: char| #[trigger] key_lookup(entries@, k) == if k == c {
                    Some(note)
                } else {
                    key_lookup(before, k)
                } by {
                    lemma_lookup_none(entries@, k);
                    lemma_lookup_none(before, k);
                    if k == c {
                        lemma_lookup_index(entries@, i as int);
                    } else if key_lookup(before, k) is Some {
                        let j = choose|j: int| 0 <= j < before.len() && #[trigger] before[j].0 == k;
                        lemma_lookup_index(before, j);
                        lemma_lookup_index(entries@, j);
                    }
                }
            }
            return;
        }
        i = i + 1;
    }
    proof {
        lemma_lookup_none(old(entries)@, c);
    }
    entries.push((c, note));
    proof {
        assert(entries@.drop_last() =~= old(entries)@);
    }
}

/// The white keys of the upper row, in order of pitch.
fn upper_white_key(i: usize) -> (c: char)
    requires
        i < 7,
    ensures
        upper_row_offset(c) == Some(white_semitone(i as int)),
{
    match i {
        0 => 'q',
        1 => 'w',
        2 => 'e',
        3 => 'r',
        4 => 't',
        5 => 'y',
        _ => 'u',
    }
}

/// The black keys of the upper row, in order of pitch.
fn upper_black_key(i: usize) -> (c: char)
    requires
        i < 5,
    ensures
        upper_row_offset(c) == Some(black_semitone(i as int)),
{
    match i {
        0 => '2',
        1 => '3',
        2 => '5',
        3 => '6',
        _ => '7',
    }
}

/// The white keys of the middle row, in order of pitch.
fn middle_white_key(i: usize) -> (c: char)
    requires
        i < 7,
    ensures
        middle_row_offset(c) == Some(12 + white_semitone(i as int)),
{
    match i {
        0 => 'a',
        1 => 's',
        2 => 'd',
        3 => 'f',
        4 => 'g',
        5 => 'h',
        _ => 'j',
    }
}

/// The black keys of the middle row, in order of pitch.
fn middle_black_key(i: usize) -> (c: char)
    requires
        i < 5,
    ensures
        middle_row_offset(c) == Some(12 + black_semitone(i as int)),
{
    match i {
        0 => '1',
        1 => '4',
        2 => '8',
        3 => '-',
        _ => '=',
    }
}

/// The semitone of the `i`-th white note of an octave.
pub open spec fn white_semitone(i: int) -> int {
    if i == 0 {
        0
    } else if i == 1 {
        2
    } else if i == 2 {
        4
    } else if i == 3 {
        5
    } else if i == 4 {
        7
    } else if i == 5 {
        9
    } else {
        11
    }
}

/// The semitone of the `i`-th black note of an octave.
pub open spec fn black_semitone(i: int) -> int {
    if i == 0 {
        1
    } else if i == 1 {
        3
    } else if i == 2 {
        6
    } else if i == 3 {
        8
    } else {
        10
    }
}

/// The number of white notes among the first `r` semitones of an octave.
pub open spec fn whites_below(r: int) -> int {
    if r <= 0 {
        0
    } else if r <= 2 {
        1
    } else if r <= 4 {
        2
    } else if r == 5 {
        3
    } else if r <= 7 {
        4
    } else if r <= 9 {
        5
    } else if r <= 11 {
        6
    } else {
        7
    }
}

proof fn lemma_semitone_tables(r: int)
    requires
        0 <= r < 12,
    ensures
        is_black_name(pitch_class_of(r)) ==> 0 <= r - whites_below(r) < 5 && black_semitone(
            r - whites_below(r),
        ) == r && whites_below(r + 1) == whites_below(r),
        !is_black_name(pitch_class_of(r)) ==> 0 <= whites_below(r) < 7 && white_semitone(
            whites_below(r),
        ) == r && whites_below(r + 1) == whites_below(r) + 1,
{
}

/// The bindings of the upper row for the keyboard at `octave`, as far as
/// the first `off` semitones go.
pub open spec fn upper_part(octave: int, c: char, off: int) -> Option<u8> {
    match upper_row_offset(c) {
        Some(o) => if o < off && octave * 12 + o <= 127 {
            Some((octave * 12 + o) as u8)
        } else {
            None
        },
        None => None,
    }
}

/// The bindings of the middle row for the keyboard at `octave`, as far as
/// semitone `off` goes.
pub open spec fn middle_part(octave: int, c: char, off: int) -> Option<u8> {
    match middle_row_offset(c) {
        Some(o) => if o < off && octave * 12 + o <= 127 {
            Some((octave * 12 + o) as u8)
        } else {
            None
        },
        None => None,
    }
}

proof fn lemma_rows_disjoint(c: char)
    ensures
        upper_row_offset(c) is Some ==> middle_row_offset(c) is None && lower_row_drop(c) is None,
        middle_row_offset(c) is Some ==> lower_row_drop(c) is None,
        upper_row_offset(c) matches Some(o) ==> 0 <= o < 12,
        middle_row_offset(c) matches Some(o) ==> 12 <= o < 24,
{
}

/// The bindings of every computer key for the keyboard at `octave`: the
/// white and black notes of the octave on the upper row, those of the octave
/// above on the middle row (both up to note 127), and the white notes of the
/// octave below on the bottom row.
fn keyboard_bindings(octave: u8) -> (r: Vec<(char, u8)>)
    requires
        octave <= 20,
    ensures
        bindings_of_octave(r@, octave as int),
{
    let base: u8 = octave * 12;
    let mut entries: Vec<(char, u8)> = Vec::new();
    let mut white_index: usize = 0;
    let mut black_index: usize = 0;
    let mut off: u8 = 0;
    while off < 12 && base + off <= 127
        invariant
            base == octave * 12,
            octave <= 20,
            off <= 12,
            white_index == whites_below(off as int),
            black_index == off - whites_below(off as int),
            distinct_keys(entries@),
            forall|c: char| #[trigger] key_lookup(entries@, c) == upper_part(octave as int, c, off as int),
        decreases 12 - off,
    {
        let midi = base + off;
        let note = Note::new(midi);
        proof {
            assert((octave * 12 + off) % 12 == off as int) by (nonlinear_arith)
                requires
                    off < 12,
            ;
            assert(pitch_class_of(midi as int) == pitch_class_of(off as int));
            lemma_semitone_tables(off as int);
        }
        let ghost before = entries@;
        match note.note_type {
            NoteType::White => {
                let key = upper_white_key(white_index);
                bind_key(&mut entries, key, midi);
                white_index = white_index + 1;
            },
            NoteType::Black => {
                let key = upper_black_key(black_index);
                bind_key(&mut entries, key, midi);
                black_index = black_index + 1;
            },
        }
        proof {
            assert forall|c: char| #[trigger] key_lookup(entries@, c) == upper_part(octave as int, c, off + 1) by {
                assert(key_lookup(before, c) == upper_part(octave as int, c, off as int));
            }
        }
        off = off + 1;
    }
    proof {
        assert forall|c: char| #[trigger] key_lookup(entries@, c) == upper_part(octave as int, c, 12) by {
            assert(key_lookup(entries@, c) == upper_part(octave as int, c, off as int));
        }
    }
    white_index = 0;
    black_index = 0;
    let mut off: u8 = 12;
    while off < 24 && base + off <= 127
        invariant
            base == octave * 12,
            octave <= 20,
            12 <= off <= 24,
            base + off <= 255,
            white_index == whites_below(off - 12),
            black_index == off - 12 - whites_below(off - 12),
            distinct_keys(entries@),
            forall|c: char| #[trigger] key_lookup(entries@, c) == match upper_row_offset(c) {
                Some(_) => upper_part(octave as int, c, 12),
                None => middle_part(octave as int, c, off as int),
            },
        decreases 24 - off,
    {
        let midi = base + off;
        let note = Note::new(midi);
        proof {
            assert((octave * 12 + off) % 12 == off - 12) by (nonlinear_arith)
                requires
                    12 <= off < 24,
            ;
            assert(pitch_class_of(midi as int) == pitch_class_of(off - 12));
            lemma_semitone_tables(off - 12);
        }
        let ghost before = entries@;
        match note.note_type {
            NoteType::White => {
                let key = middle_white_key(white_index);
                bind_key(&mut entries, key, midi);
                white_index = white_index + 1;
            },
            NoteType::Black => {
                let key = middle_black_key(black_index);
                bind_key(&mut entries, key, midi);
                black_index = black_index + 1;
            },
        }
        proof {
            assert forall|c: char| #[trigger] key_lookup(entries@, c) == match upper_row_offset(c) {
                Some(_) => upper_part(octave as int, c, 12),
                None => middle_part(octave as int, c, off + 1),
            } by {
                lemma_rows_disjoint(c);
                assert(key_lookup(before, c) == match upper_row_offset(c) {
                    Some(_) => upper_part(octave as int, c, 12),
                    None => middle_part(octave as int, c, off as int),
                });
            }
        }
        off = off + 1;
    }
    let ghost rows = entries@;
    bind_key(&mut entries, 'z', base.saturating_sub(12));
    bind_key(&mut entries, 'x', base.saturating_sub(10));
    bind_key(&mut entries, 'c', base.saturating_sub(8));
    bind_key(&mut entries, 'v', base.saturating_sub(7));
    bind_key(&mut entries, 'b', base.saturating_sub(5));
    bind_key(&mut entries, 'n', base.saturating_sub(3));
    bind_key(&mut entries, 'm', base.saturating_sub(1));
    proof {
        assert forall|c: char| #[trigger] key_lookup(entries@, c) == opt_u8(key_binding(octave as int, c)) by {
            lemma_rows_disjoint(c);
            assert(key_lookup(rows, c) == match upper_row_offset(c) {
                Some(_) => upper_part(octave as int, c, 12),
                None => middle_part(octave as int, c, off as int),
            });
        }
    }
    entries
}

/// The keyboard's state: the octave it sits at, the notes held down with the
/// time each was pressed, the sustain pedal, and the bindings of computer keys
/// to notes.
#[derive(Debug)]
pub struct Piano {
    pub current_octave: u8,
    pub pressed_keys: HashMap<u8, Instant>,
    pub sustain_pedal: bool,
    pub key_mappings: Vec<(char, u8)>,
}

/// A row of the key layout: the computer key, the note it plays, and whether
/// that note is held down.
pub open spec fn layout_row(pressed: Map<u8, Instant>, e: (char, u8)) -> (char, Note, bool) {
    (e.0, note_of(e.1), pressed.contains_key(e.1))
}

/// The predicate "binds a key to note `v`".
pub open spec fn binds_note(v: int) -> spec_fn((char, u8)) -> bool {
    |e: (char, u8)| e.1 == v
}

/// The rows of the bindings to note `v`, in the order of the bindings.
pub open spec fn layout_bucket(entries: Seq<(char, u8)>, pressed: Map<u8, Instant>, v: int) -> Seq<
    (char, Note, bool),
> {
    entries.filter(binds_note(v)).map_values(|e: (char, u8)| layout_row(pressed, e))
}

/// The rows of all bindings ordered by note, bindings of one note in their
/// order (the stable sort of the bindings by note).
pub open spec fn key_layout(entries: Seq<(char, u8)>, pressed: Map<u8, Instant>) -> Seq<
    (char, Note, bool),
> {
    Seq::new(256, |v: int| layout_bucket(entries, pressed, v)).flatten()
}

/// Whether `held_ms` gives note `k` as held for 300 milliseconds or more.
pub open spec fn held_too_long(held_ms: Seq<(u8, u128)>, k: u8) -> bool {
    exists|j: int| 0 <= j < held_ms.len() && #[trigger] held_ms[j].0 == k && held_ms[j].1 >= 300
}

/// `after` holds exactly the notes of `before` that at `now` have been held
/// down for less than 300 milliseconds.
pub open spec fn keeps_recent_keys(before: Map<u8, Instant>, after: Map<u8, Instant>, now: Instant) -> bool {
    forall|k: u8| #[trigger]
        after.contains_key(k) <==> (before.contains_key(k) && duration_millis(
            time_between(now, before[k]),
        ) < 300)
}

impl Piano {
    /// The bindings are those of the keyboard at the current octave.
    pub open spec fn wf(&self) -> bool {
        bindings_of_octave(self.key_mappings@, self.current_octave as int)
    }

    /// A keyboard at octave 4 with no key held and the pedal up.
    pub fn new() -> (r: Piano)
        ensures
            r.wf(),
            r.current_octave == 4,
            r.pressed_keys@ == Map::<u8, Instant>::empty(),
            !r.sustain_pedal,
    {
        let mut piano = Piano {
            current_octave: 4,
            pressed_keys: HashMap::new(),
            sustain_pedal: false,
            key_mappings: Vec::new(),
        };
        piano.setup_key_mappings();
        piano
    }

    /// Binds the computer keys to the notes of the current octave.
    fn setup_key_mappings(&mut self)
        requires
            old(self).current_octave <= 20,
        ensures
            final(self).wf(),
            final(self).current_octave == old(self).current_octave,
            final(self).pressed_keys == old(self).pressed_keys,
            final(self).sustain_pedal == old(self).sustain_pedal,
    {
        self.key_mappings = keyboard_bindings(self.current_octave);
    }

    /// Holds down a note from now on.
    pub fn press_key(&mut self, midi_note: u8)
        ensures
            old(self).wf() ==> final(self).wf(),
            final(self).pressed_keys@ == old(self).pressed_keys@.insert(
                midi_note,
                final(self).pressed_keys@[midi_note],
            ),
            final(self).current_octave == old(self).current_octave,
            final(self).sustain_pedal == old(self).sustain_pedal,
            final(self).key_mappings == old(self).key_mappings,
    {
        let now = clock_now();
        self.press_key_at(midi_note, now);
    }

    /// Holds down a note from `now` on: the note's press time becomes `now`,
    /// whether or not it was held already, so pressing a held note again
    /// starts its hold anew.
    pub fn press_key_at(&mut self, midi_note: u8, now: Instant)
        ensures
            old(self).wf() ==> final(self).wf(),
            final(self).pressed_keys@ == old(self).pressed_keys@.insert(midi_note, now),
            final(self).current_octave == old(self).current_octave,
            final(self).sustain_pedal == old(self).sustain_pedal,
            final(self).key_mappings == old(self).key_mappings,
    {
        self.pressed_keys.insert(midi_note, now);
    }

    /// Lets a note go, unless the sustain pedal is down.
    pub fn release_key(&mut self, midi_note: u8)
        ensures
            old(self).wf() ==> final(self).wf(),
            final(self).pressed_keys@ == if old(self).sustain_pedal {
                old(self).pressed_keys@
            } else {
                old(self).pressed_keys@.remove(midi_note)
            },
            final(self).current_octave == old(self).current_octave,
            final(self).sustain_pedal == old(self).sustain_pedal,
            final(self).key_mappings == old(self).key_mappings,
    {
        if !self.sustain_pedal {
            self.pressed_keys.remove(&midi_note);
        }
    }

    /// Puts the sustain pedal down or up; lifting it lets all notes go.
    pub fn toggle_sustain(&mut self)
        ensures
            old(self).wf() ==> final(self).wf(),
            final(self).sustain_pedal == !old(self).sustain_pedal,
            final(self).pressed_keys@ == if old(self).sustain_pedal {
                Map::<u8, Instant>::empty()
            } else {
                old(self).pressed_keys@
            },
            final(self).current_octave == old(self).current_octave,
            final(self).key_mappings == old(self).key_mappings,
    {
        self.sustain_pedal = !self.sustain_pedal;
        if !self.sustain_pedal {
            self.pressed_keys.clear();
        }
    }

    /// Moves the keyboard by `delta` octaves, kept within octaves 0 to 8,
    /// and binds the keys anew where the octave changes.
    pub fn change_octave(&mut self, delta: i8)
        requires
            -128 <= (if old(self).current_octave < 128 {
                old(self).current_octave as int
            } else {
                old(self).current_octave - 256
            }) + delta <= 127,
        ensures
            old(self).wf() ==> final(self).wf(),
            ({
                let signed = (if old(self).current_octave < 128 {
                    old(self).current_octave as int
                } else {
                    old(self).current_octave - 256
                }) + delta;
                final(self).current_octave == (if signed < 0 {
                    0
                } else if signed > 8 {
                    8
                } else {
                    signed
                })
            }),
            final(self).current_octave != old(self).current_octave ==> final(self).wf(),
            final(self).current_octave == old(self).current_octave ==> *final(self) == *old(self),
            final(self).pressed_keys == old(self).pressed_keys,
            final(self).sustain_pedal == old(self).sustain_pedal,
    {
        let signed: i16 = if self.current_octave < 128 {
            self.current_octave as i16
        } else {
            self.current_octave as i16 - 256
        };
        let moved = signed + delta as i16;
        let new_octave: u8 = if moved < 0 {
            0
        } else if moved > 8 {
            8
        } else {
            moved as u8
        };
        if new_octave != self.current_octave {
            self.current_octave = new_octave;
            self.setup_key_mappings();
        }
    }

    /// The note bound to a computer key, if any.
    pub fn get_midi_note_from_key(&self, key: char) -> (r: Option<u8>)
        ensures
            r == key_lookup(self.key_mappings@, key),
            self.wf() ==> r == opt_u8(key_binding(self.current_octave as int, key)),
    {
        let n = self.key_mappings.len();
        let mut i = n;
        proof {
            assert(self.key_mappings@.take(n as int) =~= self.key_mappings@);
        }
        while i > 0
            invariant
                i <= n,
                n == self.key_mappings@.len(),
                key_lookup(self.key_mappings@, key) == key_lookup(self.key_mappings@.take(i as int), key),
            decreases i,
        {
            let e = self.key_mappings[i - 1];
            proof {
                assert(self.key_mappings@.take(i as int).drop_last() =~= self.key_mappings@.take(i - 1));
            }
            if e.0 == key {
                return Some(e.1);
            }
            i = i - 1;
        }
        proof {
            assert(self.key_mappings@.take(0) =~= Seq::<(char, u8)>::empty());
        }
        None
    }

    /// The notes of the current octave: from its C up to the next C.
    pub fn get_octave_range(&self) -> (r: (u8, u8))
        requires
            self.current_octave <= 20,
        ensures
            r.0 == self.current_octave * 12,
            r.1 == self.current_octave * 12 + 12,
    {
        let start = self.current_octave * 12;
        (start, start + 12)
    }

    /// Lets go, unless the sustain pedal is down, of the notes held down for
    /// 300 milliseconds or more by the clock now.
    pub fn update(&mut self)
        ensures
            old(self).wf() ==> final(self).wf(),
            old(self).sustain_pedal ==> final(self).pressed_keys@ == old(self).pressed_keys@,
            !old(self).sustain_pedal ==> exists|now: Instant|
                #[trigger] keeps_recent_keys(old(self).pressed_keys@, final(self).pressed_keys@, now),
            final(self).pressed_keys@.submap_of(old(self).pressed_keys@),
            final(self).current_octave == old(self).current_octave,
            final(self).sustain_pedal == old(self).sustain_pedal,
            final(self).key_mappings == old(self).key_mappings,
    {
        if !self.sustain_pedal {
            let ghost before = self.pressed_keys@;
            let now = clock_now();
            let mut held_ms: Vec<(u8, u128)> = Vec::new();
            let mut note: u16 = 0;
            while note < 256
                invariant
                    note <= 256,
                    self.pressed_keys@ == before,
                    forall|j: int|
                        0 <= j < held_ms@.len() ==> {
                            &&& (#[trigger] held_ms@[j]).0 < note
                            &&& before.contains_key(held_ms@[j].0)
                            &&& held_ms@[j].1 == duration_millis(
                                time_between(now, before[held_ms@[j].0]),
                            )
                        },
                    forall|k: u8|
                        k < note && #[trigger] before.contains_key(k) ==> exists|j: int|
                            0 <= j < held_ms@.len() && (#[trigger] held_ms@[j]).0 == k,
                decreases 256 - note,
            {
                let key = note as u8;
                match self.pressed_keys.get(&key) {
                    Some(pressed_at) => {
                        let ms = whole_millis(&duration_between(&now, pressed_at));
                        let ghost prev = held_ms@;
                        let ghost len = prev.len();
                        held_ms.push((key, ms));
                        proof {
                            assert(held_ms@[len as int].0 == key);
                            assert forall|k: u8|
                                k < note + 1 && #[trigger] before.contains_key(k) implies exists|
                                j: int,
                            | 0 <= j < held_ms@.len() && (#[trigger] held_ms@[j]).0 == k by {
                                if k < note {
                                    let j = choose|j: int|
                                        0 <= j < len && (#[trigger] prev[j]).0 == k;
                                    assert(held_ms@[j] == prev[j]);
                                } else {
                                    assert(held_ms@[len as int].0 == k);
                                }
                            }
                        }
                    },
                    None => {},
                }
                note = note + 1;
            }
            proof {
                assert forall|k: u8| held_too_long(held_ms@, k) <==> (before.contains_key(k)
                    && duration_millis(time_between(now, before[k])) >= 300) by {
                    if before.contains_key(k) {
                        let j = choose|j: int|
                            0 <= j < held_ms@.len() && (#[trigger] held_ms@[j]).0 == k;
                        assert(held_ms@[j].0 == k);
                    }
                }
            }
            self.release_keys_held_too_long(&held_ms);
            assert(keeps_recent_keys(before, self.pressed_keys@, now));
        }
    }

    /// Lets go, unless the sustain pedal is down, of every held note that
    /// `held_ms` gives as held for 300 milliseconds or more.
    pub fn release_keys_held_too_long(&mut self, held_ms: &Vec<(u8, u128)>)
        ensures
            old(self).wf() ==> final(self).wf(),
            final(self).pressed_keys@.submap_of(old(self).pressed_keys@),
            forall|k: u8| #[trigger] final(self).pressed_keys@.contains_key(k) <==> (old(
                self,
            ).pressed_keys@.contains_key(k) && !(!old(self).sustain_pedal && held_too_long(
                held_ms@,
                k,
            ))),
            final(self).current_octave == old(self).current_octave,
            final(self).sustain_pedal == old(self).sustain_pedal,
            final(self).key_mappings == old(self).key_mappings,
    {
        if self.sustain_pedal {
            return;
        }
        let n = held_ms.len();
        let mut i: usize = 0;
        while i < n
            invariant
                i <= n,
                n == held_ms@.len(),
                !old(self).sustain_pedal,
                self.pressed_keys@.submap_of(old(self).pressed_keys@),
                forall|k: u8| #[trigger] self.pressed_keys@.contains_key(k) <==> (old(
                    self,
                ).pressed_keys@.contains_key(k) && !held_too_long(held_ms@.take(i as int), k)),
                self.current_octave == old(self).current_octave,
                self.sustain_pedal == old(self).sustain_pedal,
                self.key_mappings == old(self).key_mappings,
            decreases n - i,
        {
            let (key, ms) = held_ms[i];
            proof {
                assert forall|k: u8| held_too_long(held_ms@.take(i + 1), k) == (held_too_long(
                    held_ms@.take(i as int),
                    k,
                ) || (k == key && ms >= 300)) by {
                    if held_too_long(held_ms@.take(i + 1), k) {
                        let j = choose|j: int|
                            0 <= j < held_ms@.take(i + 1).len() && #[trigger] held_ms@.take(
                                i + 1,
                            )[j].0 == k && held_ms@.take(i + 1)[j].1 >= 300;
                        if j < i {
                            assert(held_ms@.take(i as int)[j] == held_ms@.take(i + 1)[j]);
                        }
                    }
                    if held_too_long(held_ms@.take(i as int), k) {
                        let j = choose|j: int|
                            0 <= j < held_ms@.take(i as int).len() && #[trigger] held_ms@.take(
                                i as int,
                            )[j].0 == k && held_ms@.take(i as int)[j].1 >= 300;
                        assert(held_ms@.take(i + 1)[j] == held_ms@.take(i as int)[j]);
                    }
                    if k == key && ms >= 300 {
                        assert(held_ms@.take(i + 1)[i as int] == (key, ms));
                    }
                }
            }
            if ms >= 300 {
                self.pressed_keys.remove(&key);
            }
            i = i + 1;
        }
        proof {
            assert(held_ms@.take(n as int) =~= held_ms@);
        }
    }

    /// Every binding with its note and whether that note is held down,
    /// ordered by note.
    pub fn get_key_layout(&self) -> (r: Vec<(char, Note, bool)>)
        ensures
            r@ == key_layout(self.key_mappings@, self.pressed_keys@),
    {
        let ghost entries = self.key_mappings@;
        let ghost pressed = self.pressed_keys@;
        let ghost buckets = Seq::new(256, |v: int| layout_bucket(entries, pressed, v));
        let mut layout: Vec<(char, Note, bool)> = Vec::new();
        let n = self.key_mappings.len();
        let mut v: u16 = 0;
        while v < 256
            invariant
                v <= 256,
                n == entries.len(),
                entries == self.key_mappings@,
                pressed == self.pressed_keys@,
                buckets == Seq::new(256, |v: int| layout_bucket(entries, pressed, v)),
                layout@ == buckets.take(v as int).flatten(),
            decreases 256 - v,
        {
            let ghost done = layout@;
            let mut k: usize = 0;
            while k < n
                invariant
                    v < 256,
                    k <= n,
                    n == entries.len(),
                    entries == self.key_mappings@,
                    pressed == self.pressed_keys@,
                    layout@ == done + entries.take(k as int).filter(binds_note(v as int)).map_values(
                        |e: (char, u8)| layout_row(pressed, e),
                    ),
                decreases n - k,
            {
                let e = self.key_mappings[k];
                proof {
                    assert(entries.take(k + 1) =~= entries.take(k as int).push(e));
                    entries.take(k as int).lemma_filter_push(e, binds_note(v as int));
                }
                if e.1 as u16 == v {
                    let held = self.pressed_keys.contains_key(&e.1);
                    layout.push((e.0, Note::new(e.1), held));
                    proof {
                        let g = |e: (char, u8)| layout_row(pressed, e);
                        let fl = entries.take(k as int).filter(binds_note(v as int));
                        assert(fl.push(e).map_values(g) =~= fl.map_values(g).push(g(e)));
                    }
                }
                k = k + 1;
            }
            proof {
                assert(entries.take(n as int) =~= entries);
                assert(buckets.take(v + 1) =~= buckets.take(v as int).push(buckets[v as int]));
                buckets.take(v as int).lemma_flatten_push(buckets[v as int]);
            }
            v = v + 1;
        }
        proof {
            assert(buckets.take(256) =~= buckets);
        }
        layout
    }
}

/// The keys of the on-screen keyboard and their columns.
#[derive(Debug, Clone)]
pub struct PianoLayout {
    pub white_keys: Vec<WhiteKey>,
    pub black_keys: Vec<BlackKey>,
    pub width: u16,
    pub height: u16,
}

/// A white key on screen: its note, its column and width, whether it is held,
/// and the computer key that plays it.
#[derive(Debug, Clone)]
pub struct WhiteKey {
    pub note: Note,
    pub x: u16,
    pub width: u16,
    pub is_pressed: bool,
    pub key_char: Option<char>,
}

/// A black key on screen, drawn over the border of two white keys.
#[derive(Debug, Clone)]
pub struct BlackKey {
    pub note: Note,
    pub x: u16,
    pub width: u16,
    pub is_pressed: bool,
    pub key_char: Option<char>,
}

/// The first note shown: C3.
pub open spec fn layout_start() -> int {
    48
}

/// Terminal columns left after two columns of border on each side.
pub open spec fn usable_width(tw: int) -> int {
    if tw >= 4 {
        tw - 4
    } else {
        0
    }
}

/// How many octaves are shown: as many as fit with white keys six columns
/// wide, at least two and at most seven.
pub open spec fn layout_octaves(tw: int) -> int {
    let fit = usable_width(tw) / 6 / 7;
    let at_least_two = if fit > 2 {
        fit
    } else {
        2
    };
    if at_least_two < 7 {
        at_least_two
    } else {
        7
    }
}

/// The width of a white key: the usable width shared out over the white
/// keys of the octaves shown.
pub open spec fn white_key_width(tw: int) -> int {
    usable_width(tw) / (layout_octaves(tw) * 7)
}

/// The width of a black key: three fifths of a white key, rounded down, and
/// at least three columns.
pub open spec fn black_key_width(tw: int) -> int {
    let w = white_key_width(tw) * 3 / 5;
    if w > 3 {
        w
    } else {
        3
    }
}

/// One past the last note shown: the octaves shown from C3, stopping before
/// note 127.
pub open spec fn layout_end(tw: int) -> int {
    let end = layout_start() + layout_octaves(tw) * 12;
    if end < 127 {
        end
    } else {
        127
    }
}

/// The number of white notes from C3 up to, not including, `n`.
pub open spec fn whites_from_c3(n: int) -> int {
    7 * ((n - 48) / 12) + whites_below((n - 48) % 12)
}

/// The key bound to a note in a list of bindings: that of the last binding of
/// the note.
pub open spec fn key_for_note(entries: Seq<(char, u8)>, note: int) -> Option<char>
    decreases entries.len(),
{
    if entries.len() == 0 {
        None
    } else if entries.last().1 == note {
        Some(entries.last().0)
    } else {
        key_for_note(entries.drop_last(), note)
    }
}

/// The `i`-th white key of the layout: the `i % 7`-th white note of the
/// `i / 7`-th octave from C3, with the white keys side by side from column 2.
pub open spec fn white_key_at(piano: Piano, tw: int, i: int) -> WhiteKey {
    let n = 48 + 12 * (i / 7) + white_semitone(i % 7);
    WhiteKey {
        note: note_of(n as u8),
        x: (2 + i * white_key_width(tw)) as u16,
        width: white_key_width(tw) as u16,
        is_pressed: piano.pressed_keys@.contains_key(n as u8),
        key_char: key_for_note(piano.key_mappings@, n),
    }
}

/// The `j`-th black key of the layout: the `j % 5`-th black note of the
/// `j / 5`-th octave from C3, centred on the right edge of the white key
/// just below it in pitch.
pub open spec fn black_key_at(piano: Piano, tw: int, j: int) -> BlackKey {
    let s = black_semitone(j % 5);
    let n = 48 + 12 * (j / 5) + s;
    let whites_before = 7 * (j / 5) + whites_below(s);
    BlackKey {
        note: note_of(n as u8),
        x: (2 + whites_before * white_key_width(tw) - black_key_width(tw) / 2) as u16,
        width: black_key_width(tw) as u16,
        is_pressed: piano.pressed_keys@.contains_key(n as u8),
        key_char: key_for_note(piano.key_mappings@, n),
    }
}

/// The computer key of the last binding of a note, if any.
fn key_for_note_exec(entries: &Vec<(char, u8)>, note: u8) -> (r: Option<char>)
    ensures
        r == key_for_note(entries@, note as int),
{
    let n = entries.len();
    let mut i = n;
    proof {
        assert(entries@.take(n as int) =~= entries@);
    }
    while i > 0
        invariant
            i <= n,
            n == entries@.len(),
            key_for_note(entries@, note as int) == key_for_note(entries@.take(i as int), note as int),
        decreases i,
    {
        let e = entries[i - 1];
        proof {
            assert(entries@.take(i as int).drop_last() =~= entries@.take(i - 1));
        }
        if e.1 == note {
            return Some(e.0);
        }
        i = i - 1;
    }
    proof {
        assert(entries@.take(0) =~= Seq::<(char, u8)>::empty());
    }
    None
}

proof fn lemma_layout_widths(tw: int)
    requires
        0 <= tw <= u16::MAX,
    ensures
        2 <= layout_octaves(tw) <= 7,
        0 <= white_key_width(tw),
        layout_octaves(tw) * 7 * white_key_width(tw) <= usable_width(tw),
        white_key_width(tw) * 3 <= u16::MAX,
        layout_end(tw) <= 48 + 12 * layout_octaves(tw),
{
    let d = layout_octaves(tw) * 7;
    let u = usable_width(tw);
    assert(d * (u / d) <= u) by (nonlinear_arith)
        requires
            d > 0,
            u >= 0,
    ;
    assert(u / d <= u / 14) by (nonlinear_arith)
        requires
            d >= 14,
            u >= 0,
    ;
}

#[verifier::spinoff_prover]
proof fn lemma_whites_step(n: int)
    requires
        48 <= n,
    ensures
        is_black_name(pitch_class_of(n)) ==> whites_from_c3(n + 1) == whites_from_c3(n),
        !is_black_name(pitch_class_of(n)) ==> whites_from_c3(n + 1) == whites_from_c3(n) + 1,
        pitch_class_of(n) == pitch_class_of((n - 48) % 12),
        0 <= (n - 48) % 12 < 12,
        whites_from_c3(n) == 7 * ((n - 48) / 12) + whites_below((n - 48) % 12),
{
    let m = n - 48;
    let q = m / 12;
    let r = m % 12;
    vstd::arithmetic::div_mod::lemma_fundamental_div_mod(m, 12);
    vstd::arithmetic::div_mod::lemma_mod_pos_bound(m, 12);
    assert(m == q * 12 + r);
    assert(0 <= r < 12);
    vstd::arithmetic::div_mod::lemma_fundamental_div_mod_converse(n, 12, q + 4, r);
    assert(n % 12 == r);
    vstd::arithmetic::div_mod::lemma_fundamental_div_mod_converse(r, 12, 0, r);
    assert(r % 12 == r);
    lemma_semitone_tables(r);
    if r == 11 {
        vstd::arithmetic::div_mod::lemma_fundamental_div_mod_converse(m + 1, 12, q + 1, 0);
        assert((n + 1 - 48) / 12 == q + 1);
        assert((n + 1 - 48) % 12 == 0);
    } else {
        vstd::arithmetic::div_mod::lemma_fundamental_div_mod_converse(m + 1, 12, q, r + 1);
        assert((n + 1 - 48) / 12 == q);
        assert((n + 1 - 48) % 12 == r + 1);
    }
}

impl PianoLayout {
    /// Lays out the keys from C3 for a terminal `terminal_width` columns wide.
    pub fn new(piano: &Piano, terminal_width: u16) -> (r: PianoLayout)
        ensures
            r.width == terminal_width,
            r.height == 12,
            r.white_keys@.len() == whites_from_c3(layout_end(terminal_width as int)),
            r.black_keys@.len() == layout_end(terminal_width as int) - 48 - whites_from_c3(
                layout_end(terminal_width as int),
            ),
            forall|i: int|
                0 <= i < r.white_keys@.len() ==> #[trigger] r.white_keys@[i] == white_key_at(
                    *piano,
                    terminal_width as int,
                    i,
                ),
            forall|j: int|
                0 <= j < r.black_keys@.len() ==> #[trigger] r.black_keys@[j] == black_key_at(
                    *piano,
                    terminal_width as int,
                    j,
                ),
    {
        let ghost tw = terminal_width as int;
        let white_keys_per_octave: u16 = 7;
        let usable = terminal_width.saturating_sub(4);
        let min_key_width: u16 = 6;
        let max_white_keys = usable / min_key_width;
        let fit = max_white_keys / white_keys_per_octave;
        let max_octaves = if fit > 2 {
            fit
        } else {
            2
        };
        let octave_count = if max_octaves < 7 {
            max_octaves
        } else {
            7
        };
        let total_white_keys = octave_count * white_keys_per_octave;
        let key_width = usable / total_white_keys;
        proof {
            lemma_layout_widths(tw);
        }
        let scaled = key_width * 3 / 5;
        let black_width = if scaled > 3 {
            scaled
        } else {
            3
        };
        let mut white_keys: Vec<WhiteKey> = Vec::new();
        let mut black_keys: Vec<BlackKey> = Vec::new();
        let offset_x: u16 = 2;
        let mut white_key_index: u16 = 0;
        let start: u16 = 48;
        let total_notes = octave_count * 12;
        let end = if start + total_notes < 127 {
            start + total_notes
        } else {
            127
        };
        let mut midi = start;
        while midi < end
            invariant
                48 <= midi <= end,
                offset_x == 2,
                end == layout_end(tw),
                tw == terminal_width,
                key_width == white_key_width(tw),
                black_width == black_key_width(tw),
                octave_count == layout_octaves(tw),
                usable == usable_width(tw),
                octave_count * 7 * key_width <= usable,
                2 <= octave_count <= 7,
                end <= 48 + 12 * octave_count,
                white_key_index == whites_from_c3(midi as int),
                white_keys@.len() == white_key_index,
                black_keys@.len() == midi - 48 - white_key_index,
                forall|i: int|
                    0 <= i < white_keys@.len() ==> #[trigger] white_keys@[i] == white_key_at(*piano, tw, i),
                forall|j: int|
                    0 <= j < black_keys@.len() ==> #[trigger] black_keys@[j] == black_key_at(*piano, tw, j),
            decreases end - midi,
        {
            let midi_note = midi as u8;
            let note = Note::new(midi_note);
            let is_pressed = piano.pressed_keys.contains_key(&midi_note);
            let key_char = key_for_note_exec(&piano.key_mappings, midi_note);
            let ghost q = (midi - 48) / 12;
            let ghost r = (midi - 48) % 12;
            proof {
                lemma_whites_step(midi as int);
                lemma_semitone_tables(r);
                assert(q < octave_count);
                assert(white_key_index <= 7 * q + 6);
                assert(white_key_index * key_width <= (octave_count * 7 - 1) * key_width) by (nonlinear_arith)
                    requires
                        white_key_index <= 7 * q + 6,
                        q < octave_count,
                        key_width >= 0,
                ;
                assert((octave_count * 7 - 1) * key_width == octave_count * 7 * key_width - key_width) by (nonlinear_arith);
                assert(white_key_index * key_width <= usable - key_width);
                assert(usable <= 65531);
                if note.note_type == NoteType::Black {
                    assert(white_key_index >= 1);
                    assert((white_key_index - 1) * key_width <= white_key_index * key_width) by (nonlinear_arith)
                        requires
                            white_key_index >= 1,
                            key_width >= 0,
                    ;
                }
            }
            match note.note_type {
                NoteType::White => {
                    let x = offset_x + white_key_index * key_width;
                    white_keys.push(WhiteKey { note, x, width: key_width, is_pressed, key_char });
                    proof {
                        let i = white_key_index as int;
                        assert(i == 7 * q + whites_below(r));
                        assert(i / 7 == q);
                        assert(i % 7 == whites_below(r));
                        assert(white_semitone(whites_below(r)) == r);
                        assert(48 + 12 * (i / 7) + white_semitone(i % 7) == midi);
                        assert(white_keys@[i].x == white_key_at(*piano, tw, i).x);
                        assert(white_keys@[i].note == white_key_at(*piano, tw, i).note);
                        assert(white_keys@[i] == white_key_at(*piano, tw, i));
                    }
                    white_key_index = white_key_index + 1;
                },
                NoteType::Black => {
                    let white_key_x = if white_key_index > 0 {
                        offset_x + (white_key_index - 1) * key_width
                    } else {
                        offset_x
                    };
                    proof {
                        assert(white_key_index >= 1);
                        assert((white_key_index - 1) * key_width + key_width == white_key_index * key_width) by (nonlinear_arith);
                    }
                    let black_x = white_key_x + key_width - (black_width / 2);
                    black_keys.push(BlackKey { note, x: black_x, width: black_width, is_pressed, key_char });
                    proof {
                        let j = midi - 48 - white_key_index;
                        assert(j == 5 * q + (r - whites_below(r)));
                        assert(j / 5 == q);
                        assert(j % 5 == r - whites_below(r));
                        assert(black_keys@[j] == black_key_at(*piano, tw, j));
                    }
                },
            }
            midi = midi + 1;
        }
        PianoLayout { white_keys, black_keys, width: terminal_width, height: 12 }
    }
}

/// A press starts the hold anew: once a note is pressed at `t`, whether or
/// not it was held before and whatever its earlier press time, letting go of
/// long-held notes at `now` keeps it exactly when less than 300 milliseconds
/// have passed from `t` to `now`, and treats every other note as before.
pub proof fn lemma_press_restarts_hold(
    held: Map<u8, Instant>,
    note: u8,
    t: Instant,
    now: Instant,
    after: Map<u8, Instant>,
)
    requires
        keeps_recent_keys(held.insert(note, t), after, now),
    ensures
        after.contains_key(note) <==> duration_millis(time_between(now, t)) < 300,
        forall|k: u8|
            k != note ==> (#[trigger] after.contains_key(k) <==> held.contains_key(k)
                && duration_millis(time_between(now, held[k])) < 300),
{
    assert(after.contains_key(note) <==> (held.insert(note, t).contains_key(note)
        && duration_millis(time_between(now, held.insert(note, t)[note])) < 300));
}

/// The keys of the bottom row, left to right: `z x c v b n m`.
pub open spec fn bottom_row_key(i: int) -> char {
    if i == 0 {
        'z'
    } else if i == 1 {
        'x'
    } else if i == 2 {
        'c'
    } else if i == 3 {
        'v'
    } else if i == 4 {
        'b'
    } else if i == 5 {
        'n'
    } else {
        'm'
    }
}

/// The names of the white notes of an octave, C to B.
pub open spec fn white_note_name(i: int) -> NoteName {
    if i == 0 {
        NoteName::C
    } else if i == 1 {
        NoteName::D
    } else if i == 2 {
        NoteName::E
    } else if i == 3 {
        NoteName::F
    } else if i == 4 {
        NoteName::G
    } else if i == 5 {
        NoteName::A
    } else {
        NoteName::B
    }
}

/// The bottom row plays the white notes C D E F G A B of the octave below,
/// in that order: above octave 0 its `i`-th key plays the `i`-th white note
/// of the octave under the octave's C, a white note of that name; at
/// octave 0, where there is no octave below, each of its keys plays note 0.
pub proof fn lemma_bottom_row_plays_white_notes_below(octave: int, i: int)
    requires
        0 <= octave,
        0 <= i < 7,
    ensures
        octave >= 1 ==> ({
            let n = 12 * (octave - 1) + white_semitone(i);
            &&& key_binding(octave, bottom_row_key(i)) == Some(n)
            &&& !is_black_name(pitch_class_of(n))
            &&& pitch_class_of(n) == white_note_name(i)
        }),
        octave == 0 ==> key_binding(0, bottom_row_key(i)) == Some(0int),
{
    if octave >= 1 {
        let n = 12 * (octave - 1) + white_semitone(i);
        vstd::arithmetic::div_mod::lemma_fundamental_div_mod_converse(
            n,
            12,
            octave - 1,
            white_semitone(i),
        );
        assert(n % 12 == white_semitone(i));
    }
}

/// On a keyboard whose bindings are those of its octave, from octave 1 to
/// 20, the `i`-th key of the bottom row plays the `i`-th white note of the
/// octave below.
pub proof fn lemma_piano_bottom_row(p: Piano, i: int)
    requires
        p.wf(),
        1 <= p.current_octave <= 20,
        0 <= i < 7,
    ensures
        key_lookup(p.key_mappings@, bottom_row_key(i)) == Some(
            (12 * (p.current_octave - 1) + white_semitone(i)) as u8,
        ),
        !is_black_name(pitch_class_of(12 * (p.current_octave - 1) + white_semitone(i))),
        pitch_class_of(12 * (p.current_octave - 1) + white_semitone(i)) == white_note_name(i),
{
    lemma_bottom_row_plays_white_notes_below(p.current_octave as int, i);
    assert(key_lookup(p.key_mappings@, bottom_row_key(i)) == opt_u8(
        key_binding(p.current_octave as int, bottom_row_key(i)),
    ));
}

/// Above the lowest octave no two computer keys play the same note, so each
/// note on screen shows one key.
pub proof fn lemma_keys_play_distinct_notes(octave: int, c1: char, c2: char)
    requires
        1 <= octave,
        c1 != c2,
        key_binding(octave, c1) is Some,
    ensures
        key_binding(octave, c2) != key_binding(octave, c1),
{
}

/// The white keys sit side by side from column 2, each one key width wide,
/// and the last ends at least two columns before the right edge of the
/// terminal.
pub proof fn lemma_white_keys_tile(piano: Piano, tw: u16, i: int)
    requires
        0 <= i < whites_from_c3(layout_end(tw as int)),
    ensures
        white_key_at(piano, tw as int, i).x == 2 + i * white_key_width(tw as int),
        white_key_at(piano, tw as int, i).x + white_key_width(tw as int) <= usable_width(tw as int) + 2,
        i + 1 < whites_from_c3(layout_end(tw as int)) ==> white_key_at(piano, tw as int, i + 1).x
            == white_key_at(piano, tw as int, i).x + white_key_width(tw as int),
{
    let t = tw as int;
    lemma_layout_widths(t);
    let oc = layout_octaves(t);
    let kw = white_key_width(t);
    let end = layout_end(t);
    lemma_whites_step(end);
    assert(whites_from_c3(end) <= 7 * oc) by {
        let q = (end - 48) / 12;
        let r = (end - 48) % 12;
        assert(end - 48 == 12 * q + r);
        if q >= oc {
            assert(r == 0);
        }
    }
    assert((i + 1) * kw <= 7 * oc * kw) by (nonlinear_arith)
        requires
            i + 1 <= 7 * oc,
            kw >= 0,
    ;
    assert((i + 1) * kw == i * kw + kw) by (nonlinear_arith);
}

} // verus!
