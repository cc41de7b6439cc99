# terminal_piano

A piano played from the computer keyboard in a terminal, with MIDI file
playback and recording of what is played.

- `src/` is the library, verified with Verus: note names (`notes`), the
  keyboard bindings and the on-screen key layout (`piano`), reading MIDI files
  into one time line and playing it back against a tick (`midi_file`,
  `player`), recordings and the fields of their saved form (`recording`),
  16-bit PCM samples (`pcm`), and note colours (`effects`). Time readings
  (`clock`) and the MIDI file reader stay outside the proofs, behind small
  functions whose contracts say what is assumed of them.
- `app/` holds what the proofs do not cover: audio output, the terminal user
  interface, JSON files of recordings, reading MIDI files from disk, and every
  floating-point computation (frequencies, tick and time conversion, fading
  and blending of the visual effects).
- `tests/` runs the library on concrete inputs.
