//! A terminal piano: note naming, keyboard layout, recording and MIDI
//! playback logic, each stated and proved with Verus.
pub mod clock;
pub mod effects;
pub mod midi_file;
pub mod notes;
pub mod pcm;
pub mod piano;
pub mod player;
pub mod recording;
