use vstd::prelude::*;
use std::collections::VecDeque;
use std::path::PathBuf;
use std::time::Instant;
use midly::MidiMessage;
use crate::clock::clock_now;
use crate::midi_file::{
    at_tick, file_events, is_tempo_change, last_tempo, lemma_last_tempo_is_last_change, lemma_last_tempo_concat, lemma_last_tempo_idempotent,
    lemma_stable_time_order_unique, lemma_track_ticks_monotone,
    merge_by_time, parse_midi, parsed_midi, sorted_by_time, stable_time_order, ticks_fit,
    timing_ticks, track_events, track_ticks, EntryKind, MidiEvent, MidiFile, MidiFileView,
    MidiTiming, TrackEntry,
};

verus! {

/// A file-system path, carried through the library unopened.
#[verifier::external_type_specification]
#[verifier::external_body]
pub struct ExPathBuf(std::path::PathBuf);

/// Plays back the channel messages of a MIDI file against the clock.
#[derive(Debug)]
pub struct MidiPlayer {
    pub current_file: Option<PathBuf>,
    pub events: VecDeque<MidiEvent>,
    pub is_playing: bool,
    pub start_time: Option<Instant>,
    pub current_position: u64,
    pub tempo: u32,
    pub ticks_per_quarter: u16,
    pub total_ticks: u64,
    pub loop_enabled: bool,
}

/// Why a MIDI file could not be loaded.
#[derive(Debug)]
pub enum LoadError {
    /// The MIDI file reader refused the bytes.
    Midi(midly::Error),
    /// A track runs past the last tick that a `u64` holds.
    TickOverflow,
}

/// What a call of `advance_to_tick` hands back: the messages that fell due,
/// and whether the file is to be loaded again and played from the start.
#[derive(Debug)]
pub struct PlaybackStep {
    pub messages: Vec<MidiMessage>,
    pub restart: bool,
}

/// What toggling playback asks for: nothing more after a pause, or to play,
/// after loading the file again where `reload` is set.
#[derive(Debug, Clone, Copy, PartialEq, Eq, Structural)]
pub enum ToggleAction {
    Paused,
    Play { reload: bool },
}

/// The state after loading `file` from `path` into `old`.
pub open spec fn loaded_from(old: MidiPlayer, new: MidiPlayer, path: PathBuf, file: MidiFileView) -> bool {
    &&& new.current_file == Some(path)
    &&& stable_time_order(new.events@, file_events(file.tracks))
    &&& new.events@.to_multiset() == file_events(file.tracks).to_multiset()
    &&& new.total_ticks == (if new.events@.len() == 0 {
        0
    } else {
        new.events@.last().absolute_time
    })
    &&& new.tempo == last_tempo(file.tracks.flatten(), old.tempo)
    &&& new.ticks_per_quarter == timing_ticks(file.timing)
    &&& new.current_position == 0
    &&& !new.is_playing
    &&& new.start_time is None
    &&& new.loop_enabled == old.loop_enabled
}

/// The channel messages of one track with their ticks; `tempo` ends as the
/// last tempo change of the track, or stays where it has none.
fn track_timeline(track: &Vec<TrackEntry>, tempo: &mut u32) -> (r: Vec<MidiEvent>)
    requires
        track_ticks(track@) <= u64::MAX,
    ensures
        r@ == track_events(track@),
        sorted_by_time(r@),
        *final(tempo) == last_tempo(track@, *old(tempo)),
{
    let ghost tempo0 = *tempo;
    let mut events: Vec<MidiEvent> = Vec::new();
    let mut abs: u64 = 0;
    let n = track.len();
    for k in 0..n
        invariant
            n == track@.len(),
            track_ticks(track@) <= u64::MAX,
            abs == track_ticks(track@.take(k as int)),
            events@ == track_events(track@.take(k as int)),
            *tempo == last_tempo(track@.take(k as int), tempo0),
            sorted_by_time(events@),
            forall|i: int| 0 <= i < events@.len() ==> #[trigger] events@[i].absolute_time <= abs,
    {
        let entry = track[k];
        proof {
            assert(track@.take(k + 1).drop_last() =~= track@.take(k as int));
            lemma_track_ticks_monotone(track@, k + 1);
        }
        abs = abs + entry.delta as u64;
        match entry.kind {
            EntryKind::Midi(m) => {
                events.push(MidiEvent { delta_time: entry.delta, absolute_time: abs, event: m });
            },
            EntryKind::Tempo(t) => {
                *tempo = t;
            },
            EntryKind::Meta | EntryKind::SysEx | EntryKind::Escape => {},
        }
    }
    proof {
        assert(track@.take(n as int) =~= track@);
    }
    events
}

/// Whether every track ends at a tick that a `u64` holds.
fn tracks_fit(tracks: &Vec<Vec<TrackEntry>>) -> (r: bool)
    ensures
        r == ticks_fit(tracks@.map_values(|t: Vec<TrackEntry>| t@)),
{
    let ghost view = tracks@.map_values(|t: Vec<TrackEntry>| t@);
    let n = tracks.len();
    for i in 0..n
        invariant
            n == tracks@.len(),
            view == tracks@.map_values(|t: Vec<TrackEntry>| t@),
            forall|j: int| 0 <= j < i ==> track_ticks(#[trigger] view[j]) <= u64::MAX,
    {
        let track = &tracks[i];
        let m = track.len();
        let mut sum: u64 = 0;
        for k in 0..m
            invariant
                m == track@.len(),
                i < n,
                n == view.len(),
                view == tracks@.map_values(|t: Vec<TrackEntry>| t@),
                track@ == view[i as int],
                sum == track_ticks(track@.take(k as int)),
        {
            proof {
                assert(track@.take(k + 1).drop_last() =~= track@.take(k as int));
            }
            match sum.checked_add(track[k].delta as u64) {
                Some(s) => {
                    sum = s;
                },
                None => {
                    proof {
                        lemma_track_ticks_monotone(track@, k + 1);
                        assert(track_ticks(view[i as int]) > u64::MAX);
                        assert(!ticks_fit(view));
                    }
                    return false;
                },
            }
        }
        proof {
            assert(track@.take(m as int) =~= track@);
        }
    }
    true
}

proof fn lemma_file_events_step(tracks: Seq<Seq<TrackEntry>>, i: int)
    requires
        0 <= i < tracks.len(),
    ensures
        file_events(tracks.take(i + 1)) == file_events(tracks.take(i)) + track_events(tracks[i]),
        tracks.take(i + 1).flatten() == tracks.take(i).flatten() + tracks[i],
{
    let f = |t: Seq<TrackEntry>| track_events(t);
    assert(tracks.take(i + 1) =~= tracks.take(i).push(tracks[i]));
    assert(tracks.take(i + 1).map_values(f) =~= tracks.take(i).map_values(f).push(f(tracks[i])));
    tracks.take(i).map_values(f).lemma_flatten_push(f(tracks[i]));
    tracks.take(i).lemma_flatten_push(tracks[i]);
}

impl MidiPlayer {
    /// A player with nothing loaded, at 500000 microseconds per quarter note
    /// (120 beats per minute) and 480 ticks per quarter note.
    pub fn new() -> (r: MidiPlayer)
        ensures
            r.current_file is None,
            r.events@.len() == 0,
            !r.is_playing,
            r.start_time is None,
            r.current_position == 0,
            r.tempo == 500000,
            r.ticks_per_quarter == 480,
            r.total_ticks == 0,
            !r.loop_enabled,
    {
        MidiPlayer {
            current_file: None,
            events: VecDeque::new(),
            is_playing: false,
            start_time: None,
            current_position: 0,
            tempo: 500000,
            ticks_per_quarter: 480,
            total_ticks: 0,
            loop_enabled: false,
        }
    }

    /// Loads the content of a MIDI file: all channel messages of all tracks
    /// on one time line, sorted by tick with messages of one tick in track
    /// order, the last tempo change of the file (the tempo stays where there
    /// is none), and the ticks per quarter note of its timing. Playback is
    /// stopped at the start.
    pub fn load_midi_file(&mut self, path: PathBuf, file: MidiFile)
        requires
            ticks_fit(file@.tracks),
        ensures
            loaded_from(*old(self), *final(self), path, file@),
    {
        let ghost tracks = file@.tracks;
        let ghost tempo0 = self.tempo;
        self.current_file = Some(path);
        self.current_position = 0;
        self.is_playing = false;
        self.start_time = None;
        self.ticks_per_quarter = match file.timing {
            MidiTiming::Metrical(t) => t,
            MidiTiming::Timecode(fps, sub) => {
                assert(fps * sub <= 255 * 255) by (nonlinear_arith)
                    requires
                        fps <= 255,
                        sub <= 255,
                ;
                (fps as u16) * (sub as u16)
            },
        };
        let mut merged: Vec<MidiEvent> = Vec::new();
        let mut tempo = self.tempo;
        let n = file.tracks.len();
        proof {
            assert(tracks.take(0) =~= Seq::<Seq<TrackEntry>>::empty());
            assert(tracks.take(0).map_values(|t: Seq<TrackEntry>| track_events(t)) =~= Seq::<
                Seq<MidiEvent>,
            >::empty());
            assert(file_events(tracks.take(0)) =~= Seq::<MidiEvent>::empty());
            assert(merged@ =~= file_events(tracks.take(0)));
            assert(tracks.take(0).flatten() =~= Seq::<TrackEntry>::empty());
        }
        for i in 0..n
            invariant
                n == file.tracks@.len(),
                tracks == file@.tracks,
                ticks_fit(tracks),
                sorted_by_time(merged@),
                forall|t: u64| #[trigger] merged@.filter(at_tick(t)) == file_events(
                    tracks.take(i as int),
                ).filter(at_tick(t)),
                tempo == last_tempo(tracks.take(i as int).flatten(), tempo0),
                merged@.to_multiset() == file_events(tracks.take(i as int)).to_multiset(),
        {
            proof {
                assert(file.tracks@[i as int]@ == tracks[i as int]);
            }
            let ghost before = tempo;
            let timeline = track_timeline(&file.tracks[i], &mut tempo);
            proof {
                lemma_file_events_step(tracks, i as int);
                lemma_last_tempo_concat(tracks.take(i as int).flatten(), tracks[i as int], tempo0);
            }
            let ghost prev = merged@;
            merged = merge_by_time(merged, timeline);
            proof {
                assert forall|t: u64| #[trigger] merged@.filter(at_tick(t)) == file_events(
                    tracks.take(i + 1),
                ).filter(at_tick(t)) by {
                    Seq::filter_distributes_over_add(
                        file_events(tracks.take(i as int)),
                        track_events(tracks[i as int]),
                        at_tick(t),
                    );
                    assert(prev.filter(at_tick(t)) == file_events(tracks.take(i as int)).filter(
                        at_tick(t),
                    ));
                }
                vstd::seq_lib::lemma_multiset_commutative(
                    file_events(tracks.take(i as int)),
                    track_events(tracks[i as int]),
                );
                assert(merged@.to_multiset() == file_events(tracks.take(i + 1)).to_multiset());
            }
        }
        proof {
            assert(tracks.take(n as int) =~= tracks);
        }
        self.tempo = tempo;
        self.total_ticks = if merged.len() > 0 {
            merged[merged.len() - 1].absolute_time
        } else {
            0
        };
        let mut queue: VecDeque<MidiEvent> = VecDeque::new();
        let m = merged.len();
        for k in 0..m
            invariant
                m == merged@.len(),
                queue@ == merged@.take(k as int),
        {
            proof {
                assert(merged@.take(k + 1) =~= merged@.take(k as int).push(merged@[k as int]));
            }
            queue.push_back(merged[k]);
        }
        proof {
            assert(merged@.take(m as int) =~= merged@);
        }
        self.events = queue;
    }

    /// Loads a MIDI file from its bytes. It fails, and leaves the player as
    /// it was, where the MIDI file reader refuses the bytes, or where a track
    /// runs past the last tick that a `u64` holds.
    pub fn load_bytes(&mut self, path: PathBuf, data: &[u8]) -> (r: Result<(), LoadError>)
        ensures
            match parsed_midi(data@) {
                None => r matches Err(LoadError::Midi(_)) && *final(self) == *old(self),
                Some(f) => if ticks_fit(f.tracks) {
                    r is Ok && loaded_from(*old(self), *final(self), path, f)
                } else {
                    r matches Err(LoadError::TickOverflow) && *final(self) == *old(self)
                },
            },
    {
        match parse_midi(data) {
            Err(e) => Err(LoadError::Midi(e)),
            Ok(file) => {
                if tracks_fit(&file.tracks) {
                    self.load_midi_file(path, file);
                    Ok(())
                } else {
                    Err(LoadError::TickOverflow)
                }
            },
        }
    }

    /// Starts playback from now, where there are events left or a file is
    /// loaded; does nothing otherwise.
    pub fn play(&mut self)
        ensures
            if old(self).events@.len() > 0 || old(self).current_file is Some {
                &&& final(self).is_playing
                &&& final(self).start_time is Some
                &&& *final(self) == (MidiPlayer {
                    is_playing: true,
                    start_time: final(self).start_time,
                    ..*old(self)
                })
            } else {
                *final(self) == *old(self)
            },
    {
        if self.events.len() > 0 || self.current_file.is_some() {
            self.is_playing = true;
            self.start_time = Some(clock_now());
        }
    }

    /// Stops playback, keeping the start time and the position.
    pub fn pause(&mut self)
        ensures
            *final(self) == (MidiPlayer { is_playing: false, ..*old(self) }),
    {
        self.is_playing = false;
    }

    /// Stops playback and moves back to the start; the result tells whether
    /// a file is loaded, to be read again from the start.
    pub fn rewind(&mut self) -> (reload: bool)
        ensures
            reload == old(self).current_file is Some,
            *final(self) == (MidiPlayer {
                is_playing: false,
                start_time: None,
                current_position: 0,
                ..*old(self)
            }),
    {
        self.is_playing = false;
        self.start_time = None;
        self.current_position = 0;
        self.current_file.is_some()
    }

    /// Toggles playback: a playing player pauses; a stopped one is to play,
    /// after its file is loaded again where all its events have been played.
    pub fn toggle_action(&mut self) -> (r: ToggleAction)
        ensures
            old(self).is_playing ==> r == ToggleAction::Paused && *final(self) == (MidiPlayer {
                is_playing: false,
                ..*old(self)
            }),
            !old(self).is_playing ==> r == (ToggleAction::Play {
                reload: old(self).events@.len() == 0 && old(self).current_file is Some,
            }) && *final(self) == *old(self),
    {
        if self.is_playing {
            self.pause();
            ToggleAction::Paused
        } else {
            ToggleAction::Play { reload: self.events.len() == 0 && self.current_file.is_some() }
        }
    }

    /// Hands out the messages that are due at `current_tick`: while playing
    /// from a start time, up to ten leading events whose tick is at most
    /// `current_tick`, in order. The position moves to the tick of the last
    /// message handed out, and on to `current_tick` where that is later.
    /// When no event is left, a looping player with a file asks to restart,
    /// and any other player stops playing.
    pub fn advance_to_tick(&mut self, current_tick: u64) -> (r: PlaybackStep)
        ensures
            !(old(self).is_playing && old(self).start_time is Some) ==> {
                &&& r.messages@.len() == 0
                &&& !r.restart
                &&& *final(self) == *old(self)
            },
            old(self).is_playing && old(self).start_time is Some ==> {
                let n = r.messages@.len() as int;
                let evs = old(self).events@;
                let pos = if n > 0 {
                    evs[n - 1].absolute_time
                } else {
                    old(self).current_position
                };
                &&& n <= 10 && n <= evs.len()
                &&& forall|k: int|
                    0 <= k < n ==> #[trigger] evs[k].absolute_time <= current_tick
                        && r.messages@[k] == evs[k].event
                &&& n < 10 && n < evs.len() ==> evs[n].absolute_time > current_tick
                &&& final(self).events@ == evs.skip(n)
                &&& final(self).current_position == (if current_tick > pos {
                    current_tick
                } else {
                    pos
                })
                &&& r.restart == (final(self).events@.len() == 0 && old(self).loop_enabled
                    && old(self).current_file is Some)
                &&& final(self).is_playing == !(final(self).events@.len() == 0
                    && !old(self).loop_enabled)
                &&& *final(self) == (MidiPlayer {
                    events: final(self).events,
                    current_position: final(self).current_position,
                    is_playing: final(self).is_playing,
                    ..*old(self)
                })
            },
    {
        if !self.is_playing || self.start_time.is_none() {
            return PlaybackStep { messages: Vec::new(), restart: false };
        }
        let ghost evs = self.events@;
        let ghost pos0 = self.current_position;
        let mut messages: Vec<MidiMessage> = Vec::new();
        let mut processed: usize = 0;
        while self.events.len() > 0 && processed < 10
            invariant_except_break
                processed <= 10,
                processed == messages@.len(),
                processed <= evs.len(),
                self.events@ == evs.skip(processed as int),
                forall|k: int|
                    0 <= k < processed ==> #[trigger] evs[k].absolute_time <= current_tick
                        && messages@[k] == evs[k].event,
                self.current_position == (if processed > 0 {
                    evs[processed - 1].absolute_time
                } else {
                    pos0
                }),
                self.is_playing,
                self.start_time is Some,
                *self == (MidiPlayer {
                    events: self.events,
                    current_position: self.current_position,
                    ..*old(self)
                }),
            ensures
                processed <= 10,
                processed == messages@.len(),
                processed <= evs.len(),
                self.events@ == evs.skip(processed as int),
                forall|k: int|
                    0 <= k < processed ==> #[trigger] evs[k].absolute_time <= current_tick
                        && messages@[k] == evs[k].event,
                processed < 10 && processed < evs.len() ==> evs[processed as int].absolute_time
                    > current_tick,
                self.current_position == (if processed > 0 {
                    evs[processed - 1].absolute_time
                } else {
                    pos0
                }),
                *self == (MidiPlayer {
                    events: self.events,
                    current_position: self.current_position,
                    ..*old(self)
                }),
            decreases 10 - processed,
        {
            if self.events[0].absolute_time <= current_tick {
                match self.events.pop_front() {
                    Some(e) => {
                        messages.push(e.event);
                        self.current_position = e.absolute_time;
                        processed = processed + 1;
                        proof {
                            assert(evs.skip(processed as int) =~= evs.skip(processed - 1).subrange(
                                1,
                                evs.skip(processed - 1).len() as int,
                            ));
                        }
                    },
                    None => {
                        break;
                    },
                }
            } else {
                break;
            }
        }
        if current_tick > self.current_position {
            self.current_position = current_tick;
        }
        let mut restart = false;
        if self.events.len() == 0 && self.loop_enabled {
            if self.current_file.is_some() {
                restart = true;
            }
        } else if self.events.len() == 0 {
            self.is_playing = false;
        }
        PlaybackStep { messages, restart }
    }

    /// Drops the leading events whose tick is at most `target_tick` and puts
    /// the position at the tick of the last one dropped, or at zero.
    pub fn skip_to_tick(&mut self, target_tick: u64)
        ensures
            ({
                let evs = old(self).events@;
                let n = evs.len() - final(self).events@.len();
                &&& 0 <= n <= evs.len()
                &&& final(self).events@ == evs.skip(n)
                &&& forall|k: int| 0 <= k < n ==> #[trigger] evs[k].absolute_time <= target_tick
                &&& n < evs.len() ==> evs[n].absolute_time > target_tick
                &&& final(self).current_position == (if n > 0 {
                    evs[n - 1].absolute_time
                } else {
                    0
                })
                &&& *final(self) == (MidiPlayer {
                    events: final(self).events,
                    current_position: final(self).current_position,
                    ..*old(self)
                })
            }),
    {
        let ghost evs = self.events@;
        let total = self.events.len();
        let mut last: u64 = 0;
        let mut dropped: usize = 0;
        while self.events.len() > 0
            invariant_except_break
                dropped <= evs.len(),
                total == evs.len(),
                self.events@ == evs.skip(dropped as int),
                forall|k: int| 0 <= k < dropped ==> #[trigger] evs[k].absolute_time <= target_tick,
                last == (if dropped > 0 {
                    evs[dropped - 1].absolute_time
                } else {
                    0
                }),
                *self == *old(self) || *self == (MidiPlayer { events: self.events, ..*old(self) }),
            ensures
                dropped <= evs.len(),
                self.events@ == evs.skip(dropped as int),
                forall|k: int| 0 <= k < dropped ==> #[trigger] evs[k].absolute_time <= target_tick,
                dropped < evs.len() ==> evs[dropped as int].absolute_time > target_tick,
                last == (if dropped > 0 {
                    evs[dropped - 1].absolute_time
                } else {
                    0
                }),
                *self == (MidiPlayer { events: self.events, ..*old(self) }),
            decreases self.events@.len(),
        {
            if self.events[0].absolute_time > target_tick {
                break;
            }
            match self.events.pop_front() {
                Some(e) => {
                    last = e.absolute_time;
                    dropped = dropped + 1;
                    proof {
                        assert(evs.skip(dropped as int) =~= evs.skip(dropped - 1).subrange(
                            1,
                            evs.skip(dropped - 1).len() as int,
                        ));
                    }
                },
                None => {
                    break;
                },
            }
        }
        self.current_position = last;
    }

    /// Sets whether playback starts over when the file ends.
    pub fn set_loop(&mut self, enabled: bool)
        ensures
            *final(self) == (MidiPlayer { loop_enabled: enabled, ..*old(self) }),
    {
        self.loop_enabled = enabled;
    }

    /// Whether playback starts over when the file ends.
    pub fn is_loop_enabled(&self) -> (r: bool)
        ensures
            r == self.loop_enabled,
    {
        self.loop_enabled
    }
}

/// After loading, no event falls after the file's last tick.
pub proof fn lemma_loaded_events_end_by_total(
    old: MidiPlayer,
    new: MidiPlayer,
    path: PathBuf,
    file: MidiFileView,
)
    requires
        loaded_from(old, new, path, file),
    ensures
        forall|i: int|
            0 <= i < new.events@.len() ==> #[trigger] new.events@[i].absolute_time
                <= new.total_ticks,
{
}

/// Loading a file again into the player that loading it left gives the
/// state that the first load gave: the same events in the same order, tempo,
/// timing, length, file, position, stopped playback and loop setting; the
/// two loads together are one load.
pub proof fn lemma_reload_gives_same_state(
    before: MidiPlayer,
    first: MidiPlayer,
    second: MidiPlayer,
    path: PathBuf,
    file: MidiFileView,
)
    requires
        loaded_from(before, first, path, file),
        loaded_from(first, second, path, file),
    ensures
        second.events@ == first.events@,
        second.tempo == first.tempo,
        second.ticks_per_quarter == first.ticks_per_quarter,
        second.total_ticks == first.total_ticks,
        second.current_file == first.current_file,
        second.current_position == first.current_position,
        second.is_playing == first.is_playing,
        second.start_time == first.start_time,
        second.loop_enabled == first.loop_enabled,
        loaded_from(before, second, path, file),
{
    lemma_stable_time_order_unique(second.events@, first.events@, file_events(file.tracks));
    lemma_last_tempo_idempotent(file.tracks.flatten(), before.tempo);
}

/// After loading, the tempo is the value of the last tempo change of the
/// file, its tracks read one after another, whatever entries of other kinds
/// follow it; where the file holds no tempo change, the tempo is the one the
/// player had before.
pub proof fn lemma_loaded_tempo_is_last_change(
    before: MidiPlayer,
    after: MidiPlayer,
    path: PathBuf,
    file: MidiFileView,
)
    requires
        loaded_from(before, after, path, file),
    ensures
        ({
            let entries = file.tracks.flatten();
            &&& (forall|i: int| 0 <= i < entries.len() ==> !is_tempo_change(#[trigger] entries[i]))
                ==> after.tempo == before.tempo
            &&& forall|i: int|
                0 <= i < entries.len() && is_tempo_change(#[trigger] entries[i]) && (forall|j: int|
                    i < j < entries.len() ==> !is_tempo_change(#[trigger] entries[j]))
                    ==> after.tempo == entries[i].kind->Tempo_0
        }),
{
    lemma_last_tempo_is_last_change(file.tracks.flatten(), before.tempo);
}

/// Handing out the first `n` events of a time line sorted by tick leaves a
/// sorted time line, none of whose events falls before one handed out.
pub proof fn lemma_hand_out_keeps_time_order(events: Seq<MidiEvent>, n: int)
    requires
        sorted_by_time(events),
        0 <= n <= events.len(),
    ensures
        sorted_by_time(events.skip(n)),
        forall|k: int, j: int|
            0 <= k < n && 0 <= j < events.len() - n ==> #[trigger] events[k].absolute_time
                <= #[trigger] events.skip(n)[j].absolute_time,
{
    assert forall|k: int, j: int|
        0 <= k < n && 0 <= j < events.len() - n implies #[trigger] events[k].absolute_time
        <= #[trigger] events.skip(n)[j].absolute_time by {
        assert(events.skip(n)[j] == events[n + j]);
    }
    assert forall|i: int, j: int|
        0 <= i <= j < events.skip(n).len() implies events.skip(n)[i].absolute_time
        <= events.skip(n)[j].absolute_time by {
        assert(events.skip(n)[i] == events[n + i]);
        assert(events.skip(n)[j] == events[n + j]);
    }
}

} // verus!
