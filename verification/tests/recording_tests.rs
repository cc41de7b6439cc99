use std::time::Duration;
use terminal_piano::recording::{
    event_type_from_fields, FieldError, MidiRecorder, RecordField, Recording, RecordingEventType,
};

#[test]
fn a_recording_collects_events_in_order() {
    let mut r = Recording::new();
    assert!(r.events.is_empty());
    r.push_event(RecordingEventType::NoteOn { midi_note: 60, velocity: 100 }, Duration::from_millis(5));
    r.push_event(RecordingEventType::NoteOff { midi_note: 60 }, Duration::from_millis(9));
    assert_eq!(r.events.len(), 2);
    assert_eq!(r.events[1].event_type, RecordingEventType::NoteOff { midi_note: 60 });
    assert_eq!(r.events[1].timestamp, Duration::from_millis(9));
    assert_eq!(r.duration, Duration::from_millis(9));
    r.add_event(RecordingEventType::SustainPedal { pressed: true });
    assert_eq!(r.events.len(), 3);
    assert_eq!(r.duration, r.events[2].timestamp);
    assert!(r.events[2].timestamp < Duration::from_secs(60));
    r.finish();
    assert!(r.duration >= r.events[2].timestamp);
}

#[test]
fn a_recorder_records_only_while_recording() {
    let mut rec = MidiRecorder::new();
    assert!(!rec.is_recording);
    rec.record_note_on(60, 90);
    assert!(rec.recording.is_none());
    rec.start_recording();
    rec.record_note_on(60, 90);
    rec.record_sustain_pedal(true);
    rec.record_note_off(60);
    let done = rec.stop_recording().unwrap();
    let kinds: Vec<_> = done.events.iter().map(|e| e.event_type).collect();
    assert_eq!(
        kinds,
        vec![
            RecordingEventType::NoteOn { midi_note: 60, velocity: 90 },
            RecordingEventType::SustainPedal { pressed: true },
            RecordingEventType::NoteOff { midi_note: 60 },
        ]
    );
    assert!(!rec.is_recording);
    assert!(rec.recording.is_none());
    assert!(rec.stop_recording().is_none());
}

#[test]
fn toggling_twice_gives_an_empty_recording() {
    let mut rec = MidiRecorder::new();
    assert!(rec.toggle_recording().is_none());
    assert!(rec.is_recording);
    let r = rec.toggle_recording().unwrap();
    assert!(r.events.is_empty());
    assert!(!rec.is_recording);
}

#[test]
fn field_names_and_tags() {
    assert_eq!(RecordField::Events.name(), "events");
    assert_eq!(RecordField::DurationMs.name(), "duration_ms");
    assert_eq!(RecordField::TimestampMs.name(), "timestamp_ms");
    assert_eq!(RecordField::EventType.name(), "event_type");
    assert_eq!(RecordField::Type.name(), "type");
    assert_eq!(RecordField::MidiNote.name(), "midi_note");
    assert_eq!(RecordField::Velocity.name(), "velocity");
    assert_eq!(RecordField::Pressed.name(), "pressed");
    assert_eq!(RecordingEventType::NoteOn { midi_note: 1, velocity: 2 }.tag(), "NoteOn");
    assert_eq!(RecordingEventType::NoteOff { midi_note: 1 }.tag(), "NoteOff");
    assert_eq!(RecordingEventType::SustainPedal { pressed: true }.tag(), "SustainPedal");
}

#[test]
fn event_types_read_back_from_their_fields() {
    let all = [
        RecordingEventType::NoteOn { midi_note: 61, velocity: 7 },
        RecordingEventType::NoteOff { midi_note: 0 },
        RecordingEventType::SustainPedal { pressed: false },
    ];
    for t in all {
        let (m, v, p) = match t {
            RecordingEventType::NoteOn { midi_note, velocity } => (Some(midi_note), Some(velocity), None),
            RecordingEventType::NoteOff { midi_note } => (Some(midi_note), None, None),
            RecordingEventType::SustainPedal { pressed } => (None, None, Some(pressed)),
        };
        assert_eq!(event_type_from_fields(Some(t.tag().to_string()), m, v, p), Ok(t));
    }
}

#[test]
fn event_type_field_errors() {
    assert_eq!(event_type_from_fields(None, Some(1), Some(2), None), Err(FieldError::MissingField(RecordField::Type)));
    assert_eq!(event_type_from_fields(Some("NoteOn".to_string()), None, Some(2), None), Err(FieldError::MissingField(RecordField::MidiNote)));
    assert_eq!(event_type_from_fields(Some("NoteOn".to_string()), Some(1), None, None), Err(FieldError::MissingField(RecordField::Velocity)));
    assert_eq!(event_type_from_fields(Some("NoteOff".to_string()), None, None, None), Err(FieldError::MissingField(RecordField::MidiNote)));
    assert_eq!(event_type_from_fields(Some("SustainPedal".to_string()), Some(1), None, None), Err(FieldError::MissingField(RecordField::Pressed)));
    assert_eq!(event_type_from_fields(Some("noteon".to_string()), Some(1), Some(2), None), Err(FieldError::UnknownVariant("noteon".to_string())));
    assert_eq!(
        event_type_from_fields(Some("NoteOff".to_string()), Some(5), Some(9), Some(true)),
        Ok(RecordingEventType::NoteOff { midi_note: 5 })
    );
}

#[test]
fn finishing_at_a_time_sets_the_duration() {
    let mut r = Recording::new();
    r.push_event(RecordingEventType::NoteOff { midi_note: 3 }, Duration::from_millis(4));
    r.finish_at(Duration::from_millis(250));
    assert_eq!(r.duration, Duration::from_millis(250));
    assert_eq!(r.events.len(), 1);
}

#[test]
fn a_new_recording_lasts_no_time() {
    let r = Recording::new();
    assert_eq!(r.duration, Duration::ZERO);
    assert_eq!(r.duration.as_millis(), 0);
    let mut rec = MidiRecorder::new();
    rec.start_recording();
    assert_eq!(rec.recording.as_ref().unwrap().duration, Duration::ZERO);
}

#[test]
fn stamps_and_lengths_come_from_the_clock() {
    let mut rec = MidiRecorder::new();
    rec.start_recording();
    let started = rec.recording.as_ref().unwrap().start_time;
    rec.record_note_on(60, 90);
    let stamp = rec.recording.as_ref().unwrap().events[0].timestamp;
    assert_eq!(stamp, rec.recording.as_ref().unwrap().duration);
    assert!(stamp <= started.elapsed());
    let done = rec.stop_recording().unwrap();
    assert!(done.duration >= stamp);
    assert!(done.duration <= started.elapsed());
    assert_eq!(done.start_time, started);
}
