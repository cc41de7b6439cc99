use vstd::prelude::*;
use std::time::{Duration, Instant};
use crate::clock::{
    clock_now, duration_between, duration_millis, duration_of_millis, millis_duration, time_between,
};

verus! {

/// What was played: a key going down with its velocity, a key coming up, or
/// the sustain pedal.
#[derive(Debug, Clone, Copy, PartialEq, Eq, Structural)]
pub enum RecordingEventType {
    NoteOn { midi_note: u8, velocity: u8 },
    NoteOff { midi_note: u8 },
    SustainPedal { pressed: bool },
}

/// An event of a recording with the time since the recording began.
#[derive(Debug, Clone, Copy)]
pub struct RecordingEvent {
    pub timestamp: Duration,
    pub event_type: RecordingEventType,
}

/// A performance: its events in the order played, how long it lasted, and
/// when it began.
#[derive(Debug)]
pub struct Recording {
    pub events: Vec<RecordingEvent>,
    pub duration: Duration,
    pub start_time: Instant,
}

/// `new` is `old` with one more event, of type `ty`, stamped with the new
/// duration.
pub open spec fn recorded_event(old: Recording, new: Recording, ty: RecordingEventType) -> bool {
    &&& new.events@ == old.events@.push(RecordingEvent { timestamp: new.duration, event_type: ty })
    &&& new.start_time == old.start_time
}

/// The recording lasts for the time from its start to some reading of the
/// clock.
pub open spec fn lasts_until_clock_reading(r: Recording) -> bool {
    exists|now: Instant| r.duration == #[trigger] time_between(now, r.start_time)
}

impl Recording {
    /// An empty recording that begins now.
    pub fn new() -> (r: Recording)
        ensures
            r.events@.len() == 0,
            r.duration == millis_duration(0),
            duration_millis(r.duration) == 0,
    {
        Recording { events: Vec::new(), duration: duration_of_millis(0), start_time: clock_now() }
    }

    /// Appends an event stamped with the time since the recording began;
    /// the recording now lasts until that event.
    pub fn add_event(&mut self, event_type: RecordingEventType)
        ensures
            recorded_event(*old(self), *final(self), event_type),
            lasts_until_clock_reading(*final(self)),
    {
        let now = clock_now();
        let timestamp = duration_between(&now, &self.start_time);
        self.push_event(event_type, timestamp);
        assert(self.duration == time_between(now, self.start_time));
    }

    /// Appends an event stamped `timestamp`; the recording now lasts until
    /// that event.
    pub fn push_event(&mut self, event_type: RecordingEventType, timestamp: Duration)
        ensures
            recorded_event(*old(self), *final(self), event_type),
            final(self).duration == timestamp,
    {
        self.events.push(RecordingEvent { timestamp, event_type });
        self.duration = timestamp;
    }

    /// Ends the recording: it lasts until now.
    pub fn finish(&mut self)
        ensures
            final(self).events == old(self).events,
            final(self).start_time == old(self).start_time,
            lasts_until_clock_reading(*final(self)),
    {
        let now = clock_now();
        let elapsed = duration_between(&now, &self.start_time);
        self.finish_at(elapsed);
        assert(self.duration == time_between(now, self.start_time));
    }

    /// Ends the recording at `elapsed` after it began: it lasts that long.
    pub fn finish_at(&mut self, elapsed: Duration)
        ensures
            final(self).duration == elapsed,
            final(self).events == old(self).events,
            final(self).start_time == old(self).start_time,
    {
        self.duration = elapsed;
    }
}

/// Records what is played while recording is on.
#[derive(Debug)]
pub struct MidiRecorder {
    pub recording: Option<Recording>,
    pub is_recording: bool,
}

/// `new` is `old` with one more event of type `ty` in its recording, where
/// recording is on with a recording under way, and `old` unchanged otherwise.
pub open spec fn records(old: MidiRecorder, new: MidiRecorder, ty: RecordingEventType) -> bool {
    if old.is_recording && old.recording is Some {
        &&& new.is_recording
        &&& new.recording is Some
        &&& recorded_event(old.recording->0, new.recording->0, ty)
        &&& lasts_until_clock_reading(new.recording->0)
    } else {
        new == old
    }
}

impl MidiRecorder {
    /// A recorder that is not recording and holds no recording.
    pub fn new() -> (r: MidiRecorder)
        ensures
            r.recording is None,
            !r.is_recording,
    {
        MidiRecorder { recording: None, is_recording: false }
    }

    /// Begins a new, empty recording, dropping any earlier one.
    pub fn start_recording(&mut self)
        ensures
            final(self).is_recording,
            final(self).recording matches Some(r) && r.events@.len() == 0 && r.duration
                == millis_duration(0),
    {
        self.recording = Some(Recording::new());
        self.is_recording = true;
    }

    /// Ends recording and hands out the recording, finished, if there is one.
    pub fn stop_recording(&mut self) -> (r: Option<Recording>)
        ensures
            !final(self).is_recording,
            final(self).recording is None,
            match old(self).recording {
                None => r is None,
                Some(o) => r matches Some(n) && n.events == o.events && n.start_time
                    == o.start_time && lasts_until_clock_reading(n),
            },
    {
        self.is_recording = false;
        match self.recording.take() {
            Some(mut recording) => {
                recording.finish();
                Some(recording)
            },
            None => None,
        }
    }

    fn record(&mut self, event_type: RecordingEventType)
        ensures
            records(*old(self), *final(self), event_type),
    {
        if self.is_recording {
            match self.recording.take() {
                Some(mut recording) => {
                    recording.add_event(event_type);
                    self.recording = Some(recording);
                },
                None => {},
            }
        }
    }

    /// Records a key going down, while recording.
    pub fn record_note_on(&mut self, midi_note: u8, velocity: u8)
        ensures
            records(*old(self), *final(self), RecordingEventType::NoteOn { midi_note, velocity }),
    {
        self.record(RecordingEventType::NoteOn { midi_note, velocity });
    }

    /// Records a key coming up, while recording.
    pub fn record_note_off(&mut self, midi_note: u8)
        ensures
            records(*old(self), *final(self), RecordingEventType::NoteOff { midi_note }),
    {
        self.record(RecordingEventType::NoteOff { midi_note });
    }

    /// Records the sustain pedal going down or up, while recording.
    pub fn record_sustain_pedal(&mut self, pressed: bool)
        ensures
            records(*old(self), *final(self), RecordingEventType::SustainPedal { pressed }),
    {
        self.record(RecordingEventType::SustainPedal { pressed });
    }

    /// Stops recording and hands out the recording where recording was on;
    /// otherwise starts a new recording and hands out nothing.
    pub fn toggle_recording(&mut self) -> (r: Option<Recording>)
        ensures
            old(self).is_recording ==> {
                &&& !final(self).is_recording
                &&& final(self).recording is None
                &&& match old(self).recording {
                    None => r is None,
                    Some(o) => r matches Some(n) && n.events == o.events && n.start_time
                        == o.start_time && lasts_until_clock_reading(n),
                }
            },
            !old(self).is_recording ==> {
                &&& r is None
                &&& final(self).is_recording
                &&& final(self).recording matches Some(n) && n.events@.len() == 0
                    && n.duration == millis_duration(0)
            },
    {
        if self.is_recording {
            self.stop_recording()
        } else {
            self.start_recording();
            None
        }
    }
}

/// The fields of the saved form of a recording.
#[derive(Debug, Clone, Copy, PartialEq, Eq, Structural)]
pub enum RecordField {
    Events,
    DurationMs,
    TimestampMs,
    EventType,
    Type,
    MidiNote,
    Velocity,
    Pressed,
}

/// Why a saved event type cannot be read back.
#[derive(Debug, Clone, PartialEq, Eq)]
pub enum FieldError {
    /// A field that the event needs is absent.
    MissingField(RecordField),
    /// The `type` field names no event type; it holds that name.
    UnknownVariant(String),
}

/// The tag written in the `type` field of each event type.
pub open spec fn type_tag(ty: RecordingEventType) -> Seq<char> {
    match ty {
        RecordingEventType::NoteOn { .. } => seq!['N', 'o', 't', 'e', 'O', 'n'],
        RecordingEventType::NoteOff { .. } => seq!['N', 'o', 't', 'e', 'O', 'f', 'f'],
        RecordingEventType::SustainPedal { .. } => seq![
            'S',
            'u',
            's',
            't',
            'a',
            'i',
            'n',
            'P',
            'e',
            'd',
            'a',
            'l',
        ],
    }
}

/// The name under which each field is written.
pub open spec fn field_name(f: RecordField) -> Seq<char> {
    match f {
        RecordField::Events => seq!['e', 'v', 'e', 'n', 't', 's'],
        RecordField::DurationMs => seq!['d', 'u', 'r', 'a', 't', 'i', 'o', 'n', '_', 'm', 's'],
        RecordField::TimestampMs => seq![
            't',
            'i',
            'm',
            'e',
            's',
            't',
            'a',
            'm',
            'p',
            '_',
            'm',
            's',
        ],
        RecordField::EventType => seq!['e', 'v', 'e', 'n', 't', '_', 't', 'y', 'p', 'e'],
        RecordField::Type => seq!['t', 'y', 'p', 'e'],
        RecordField::MidiNote => seq!['m', 'i', 'd', 'i', '_', 'n', 'o', 't', 'e'],
        RecordField::Velocity => seq!['v', 'e', 'l', 'o', 'c', 'i', 't', 'y'],
        RecordField::Pressed => seq!['p', 'r', 'e', 's', 's', 'e', 'd'],
    }
}

impl RecordField {
    /// The name under which the field is written.
    pub fn name(&self) -> (r: &'static str)
        ensures
            r@ == field_name(*self),
    {
        match self {
            RecordField::Events => {
                proof {
                    reveal_strlit("events");
                }
                "events"
            },
            RecordField::DurationMs => {
                proof {
                    reveal_strlit("duration_ms");
                }
                "duration_ms"
            },
            RecordField::TimestampMs => {
                proof {
                    reveal_strlit("timestamp_ms");
                }
                "timestamp_ms"
            },
            RecordField::EventType => {
                proof {
                    reveal_strlit("event_type");
                }
                "event_type"
            },
            RecordField::Type => {
                proof {
                    reveal_strlit("type");
                }
                "type"
            },
            RecordField::MidiNote => {
                proof {
                    reveal_strlit("midi_note");
                }
                "midi_note"
            },
            RecordField::Velocity => {
                proof {
                    reveal_strlit("velocity");
                }
                "velocity"
            },
            RecordField::Pressed => {
                proof {
                    reveal_strlit("pressed");
                }
                "pressed"
            },
        }
    }
}

impl RecordingEventType {
    /// The tag written in the `type` field of the event type.
    pub fn tag(&self) -> (r: &'static str)
        ensures
            r@ == type_tag(*self),
    {
        match self {
            RecordingEventType::NoteOn { .. } => {
                proof {
                    reveal_strlit("NoteOn");
                }
                "NoteOn"
            },
            RecordingEventType::NoteOff { .. } => {
                proof {
                    reveal_strlit("NoteOff");
                }
                "NoteOff"
            },
            RecordingEventType::SustainPedal { .. } => {
                proof {
                    reveal_strlit("SustainPedal");
                }
                "SustainPedal"
            },
        }
    }
}

/// The event type that the fields of a saved event give: the `type` field
/// picks the variant, which takes its data from its own fields. It is an
/// error where `type` or a field of the variant is absent, or where `type`
/// names no variant.
pub open spec fn decoded_event_type(
    kind: Option<Seq<char>>,
    midi_note: Option<u8>,
    velocity: Option<u8>,
    pressed: Option<bool>,
) -> Result<RecordingEventType, RecordField> {
    match kind {
        None => Err(RecordField::Type),
        Some(k) => if k == type_tag(RecordingEventType::NoteOn { midi_note: 0, velocity: 0 }) {
            match (midi_note, velocity) {
                (Some(m), Some(v)) => Ok(RecordingEventType::NoteOn { midi_note: m, velocity: v }),
                (None, _) => Err(RecordField::MidiNote),
                (Some(_), None) => Err(RecordField::Velocity),
            }
        } else if k == type_tag(RecordingEventType::NoteOff { midi_note: 0 }) {
            match midi_note {
                Some(m) => Ok(RecordingEventType::NoteOff { midi_note: m }),
                None => Err(RecordField::MidiNote),
            }
        } else if k == type_tag(RecordingEventType::SustainPedal { pressed: false }) {
            match pressed {
                Some(p) => Ok(RecordingEventType::SustainPedal { pressed: p }),
                None => Err(RecordField::Pressed),
            }
        } else {
            Err(RecordField::Type)
        },
    }
}

/// Whether the text is the tag of a known event type.
pub open spec fn known_tag(k: Seq<char>) -> bool {
    k == type_tag(RecordingEventType::NoteOn { midi_note: 0, velocity: 0 }) || k == type_tag(
        RecordingEventType::NoteOff { midi_note: 0 },
    ) || k == type_tag(RecordingEventType::SustainPedal { pressed: false })
}

fn text_is(s: &String, lit: &str) -> (r: bool)
    ensures
        r == (s@ == lit@),
{
    let t = lit.to_string();
    *s == t
}

/// Reads an event type back from the fields of its saved form.
pub fn event_type_from_fields(
    kind: Option<String>,
    midi_note: Option<u8>,
    velocity: Option<u8>,
    pressed: Option<bool>,
) -> (r: Result<RecordingEventType, FieldError>)
    ensures
        ({
            let k = match kind {
                Some(s) => Some(s@),
                None => None,
            };
            match decoded_event_type(k, midi_note, velocity, pressed) {
                Ok(t) => r == Ok::<RecordingEventType, FieldError>(t),
                Err(f) => match k {
                    Some(name) => if !known_tag(name) {
                        r matches Err(FieldError::UnknownVariant(s)) && s@ == name
                    } else {
                        r matches Err(FieldError::MissingField(g)) && g == f
                    },
                    None => r matches Err(FieldError::MissingField(g)) && g == f,
                },
            }
        }),
{
    proof {
        reveal_strlit("NoteOn");
        reveal_strlit("NoteOff");
        reveal_strlit("SustainPedal");
        assert("NoteOn"@ =~= type_tag(RecordingEventType::NoteOn { midi_note: 0, velocity: 0 }));
        assert("NoteOff"@ =~= type_tag(RecordingEventType::NoteOff { midi_note: 0 }));
        assert("SustainPedal"@ =~= type_tag(RecordingEventType::SustainPedal { pressed: false }));
    }
    match kind {
        None => Err(FieldError::MissingField(RecordField::Type)),
        Some(k) => {
            if text_is(&k, "NoteOn") {
                match midi_note {
                    None => Err(FieldError::MissingField(RecordField::MidiNote)),
                    Some(m) => match velocity {
                        None => Err(FieldError::MissingField(RecordField::Velocity)),
                        Some(v) => Ok(RecordingEventType::NoteOn { midi_note: m, velocity: v }),
                    },
                }
            } else if text_is(&k, "NoteOff") {
                match midi_note {
                    None => Err(FieldError::MissingField(RecordField::MidiNote)),
                    Some(m) => Ok(RecordingEventType::NoteOff { midi_note: m }),
                }
            } else if text_is(&k, "SustainPedal") {
                match pressed {
                    None => Err(FieldError::MissingField(RecordField::Pressed)),
                    Some(p) => Ok(RecordingEventType::SustainPedal { pressed: p }),
                }
            } else {
                Err(FieldError::UnknownVariant(k))
            }
        },
    }
}

/// The fields that the saved form of an event type holds: its tag, and the
/// data of its variant.
pub open spec fn encoded_fields(ty: RecordingEventType) -> (
    Option<Seq<char>>,
    Option<u8>,
    Option<u8>,
    Option<bool>,
) {
    match ty {
        RecordingEventType::NoteOn { midi_note, velocity } => (
            Some(type_tag(ty)),
            Some(midi_note),
            Some(velocity),
            None,
        ),
        RecordingEventType::NoteOff { midi_note } => (Some(type_tag(ty)), Some(midi_note), None, None),
        RecordingEventType::SustainPedal { pressed } => (Some(type_tag(ty)), None, None, Some(pressed)),
    }
}

/// Reading back the fields that an event type is saved with gives that
/// event type.
pub proof fn lemma_event_type_round_trip(ty: RecordingEventType)
    ensures
        ({
            let (k, m, v, p) = encoded_fields(ty);
            decoded_event_type(k, m, v, p) == Ok::<RecordingEventType, RecordField>(ty)
        }),
{
    let a = type_tag(RecordingEventType::NoteOn { midi_note: 0, velocity: 0 });
    let b = type_tag(RecordingEventType::NoteOff { midi_note: 0 });
    let c = type_tag(RecordingEventType::SustainPedal { pressed: false });
    assert(a != b) by {
        assert(a.len() != b.len());
    }
    assert(a != c) by {
        assert(a.len() != c.len());
    }
    assert(b != c) by {
        assert(b.len() != c.len());
    }
}

} // verus!
