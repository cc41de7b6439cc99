use vstd::prelude::*;
use midly::Timing::{Metrical, Timecode};
use midly::TrackEventKind::{Escape, Meta, Midi, SysEx};
use midly::{MetaMessage, MidiMessage, Smf};

verus! {

/// A channel message of a MIDI file, carried through the library unopened.
#[verifier::external_type_specification]
#[verifier::external_body]
pub struct ExMidiMessage(midly::MidiMessage);

/// The error that the MIDI file reader reports for malformed input.
#[verifier::external_type_specification]
#[verifier::external_body]
pub struct ExMidlyError(midly::Error);

/// How the ticks of a file relate to time: ticks per quarter note, or frames
/// per second and ticks per frame.
#[derive(Debug, Clone, Copy, PartialEq, Eq, Structural)]
pub enum MidiTiming {
    Metrical(u16),
    Timecode(u8, u8),
}

/// What one event of a track carries, as far as playback reads it.
#[derive(Debug, Clone, Copy)]
pub enum EntryKind {
    /// A channel message to be played.
    Midi(MidiMessage),
    /// A tempo change, in microseconds per quarter note.
    Tempo(u32),
    /// Any other meta event.
    Meta,
    /// A system exclusive message.
    SysEx,
    /// An escape sequence.
    Escape,
}

/// One event of a track: its delta time in ticks and what it carries.
#[derive(Debug, Clone, Copy)]
pub struct TrackEntry {
    pub delta: u32,
    pub kind: EntryKind,
}

/// The content of a standard MIDI file that playback reads.
#[derive(Debug, Clone)]
pub struct MidiFile {
    pub timing: MidiTiming,
    pub tracks: Vec<Vec<TrackEntry>>,
}

/// The mathematical content of a `MidiFile`.
pub struct MidiFileView {
    pub timing: MidiTiming,
    pub tracks: Seq<Seq<TrackEntry>>,
}

impl View for MidiFile {
    type V = MidiFileView;

    open spec fn view(&self) -> MidiFileView {
        MidiFileView { timing: self.timing, tracks: self.tracks@.map_values(|t: Vec<TrackEntry>| t@) }
    }
}

/// What the MIDI file reader makes of the bytes of a file: `None` where it
/// refuses them.
pub uninterp spec fn parsed_midi(data: Seq<u8>) -> Option<MidiFileView>;

/// Reads a standard MIDI file with `midly::Smf::parse`, keeping of each event
/// its delta time and its kind, with the channel message or the tempo that it
/// carries. The
/// contract claims only that the outcome is a function of the bytes, named
/// `parsed_midi`.
#[verifier::external_body]
pub(crate) fn parse_midi(data: &[u8]) -> (r: Result<MidiFile, midly::Error>)
    ensures
        match r {
            Ok(f) => parsed_midi(data@) == Some(f@),
            Err(_) => parsed_midi(data@) is None,
        },
{
    let smf = Smf::parse(data)?;
    let timing = match smf.header.timing {
        Metrical(t) => MidiTiming::Metrical(t.as_int()),
        Timecode(fps, sub) => MidiTiming::Timecode(fps.as_int(), sub),
    };
    let tracks = smf.tracks.iter().map(|t| t.iter().map(|e| TrackEntry {
        delta: e.delta.as_int(), kind: match e.kind {
            Midi { message, .. } => EntryKind::Midi(message),
            Meta(MetaMessage::Tempo(v)) => EntryKind::Tempo(v.as_int()),
            Meta(_) => EntryKind::Meta,
            SysEx(_) => EntryKind::SysEx,
            Escape(_) => EntryKind::Escape,
        },
    }).collect()).collect();
    Ok(MidiFile { timing, tracks })
}

/// A channel message placed on the time line of the whole file.
#[derive(Debug, Clone, Copy)]
pub struct MidiEvent {
    pub delta_time: u32,
    pub absolute_time: u64,
    pub event: MidiMessage,
}

/// The sum of the delta times of a track: the tick of its last event.
pub open spec fn track_ticks(track: Seq<TrackEntry>) -> int
    decreases track.len(),
{
    if track.len() == 0 {
        0
    } else {
        track_ticks(track.drop_last()) + track.last().delta
    }
}

/// The channel messages of a track with the tick at which each falls.
pub open spec fn track_events(track: Seq<TrackEntry>) -> Seq<MidiEvent>
    decreases track.len(),
{
    if track.len() == 0 {
        Seq::empty()
    } else {
        let before = track_events(track.drop_last());
        match track.last().kind {
            EntryKind::Midi(m) => before.push(
                MidiEvent {
                    delta_time: track.last().delta,
                    absolute_time: track_ticks(track) as u64,
                    event: m,
                },
            ),
            _ => before,
        }
    }
}

/// The channel messages of all tracks, track after track.
pub open spec fn file_events(tracks: Seq<Seq<TrackEntry>>) -> Seq<MidiEvent> {
    tracks.map_values(|t: Seq<TrackEntry>| track_events(t)).flatten()
}

/// The tempo in force after a run of events: the last tempo change among
/// them, or `tempo` where there is none.
pub open spec fn last_tempo(entries: Seq<TrackEntry>, tempo: u32) -> u32
    decreases entries.len(),
{
    if entries.len() == 0 {
        tempo
    } else {
        match entries.last().kind {
            EntryKind::Tempo(t) => t,
            _ => last_tempo(entries.drop_last(), tempo),
        }
    }
}

/// Whether every track of a file ends at a tick that a `u64` holds.
pub open spec fn ticks_fit(tracks: Seq<Seq<TrackEntry>>) -> bool {
    forall|i: int| 0 <= i < tracks.len() ==> track_ticks(#[trigger] tracks[i]) <= u64::MAX
}

/// Ticks per quarter note that a file's timing gives: the metrical value, or
/// frames per second times ticks per frame.
pub open spec fn timing_ticks(timing: MidiTiming) -> u16 {
    match timing {
        MidiTiming::Metrical(t) => t,
        MidiTiming::Timecode(fps, sub) => (fps * sub) as u16,
    }
}

/// Events ordered by their tick.
pub open spec fn sorted_by_time(s: Seq<MidiEvent>) -> bool {
    forall|i: int, j: int| 0 <= i <= j < s.len() ==> s[i].absolute_time <= s[j].absolute_time
}

/// The predicate "falls at tick `t`".
pub open spec fn at_tick(t: u64) -> spec_fn(MidiEvent) -> bool {
    |e: MidiEvent| e.absolute_time == t
}

/// `out` is `input` sorted by tick with events of one tick kept in their order
/// in `input` (the stable sort by tick).
pub open spec fn stable_time_order(out: Seq<MidiEvent>, input: Seq<MidiEvent>) -> bool {
    &&& sorted_by_time(out)
    &&& forall|t: u64| #[trigger] out.filter(at_tick(t)) == input.filter(at_tick(t))
}

pub proof fn lemma_track_ticks_monotone(track: Seq<TrackEntry>, n: int)
    requires
        0 <= n <= track.len(),
    ensures
        track_ticks(track.take(n)) <= track_ticks(track),
    decreases track.len() - n,
{
    if n < track.len() {
        lemma_track_ticks_monotone(track, n + 1);
        assert(track.take(n + 1).drop_last() =~= track.take(n));
    } else {
        assert(track.take(n) =~= track);
    }
}

pub proof fn lemma_last_tempo_concat(a: Seq<TrackEntry>, b: Seq<TrackEntry>, tempo: u32)
    ensures
        last_tempo(a + b, tempo) == last_tempo(b, last_tempo(a, tempo)),
    decreases b.len(),
{
    if b.len() == 0 {
        assert(a + b =~= a);
    } else {
        assert((a + b).drop_last() =~= a + b.drop_last());
        lemma_last_tempo_concat(a, b.drop_last(), tempo);
    }
}

/// Whether an entry of a track is a tempo change.
pub open spec fn is_tempo_change(e: TrackEntry) -> bool {
    e.kind is Tempo
}

/// A tempo change sets the tempo to its value; every other entry (a channel
/// message, another meta event, a system exclusive message or an escape)
/// leaves the tempo as it was.
pub proof fn lemma_last_tempo_step(entries: Seq<TrackEntry>, x: TrackEntry, tempo: u32)
    ensures
        is_tempo_change(x) ==> last_tempo(entries.push(x), tempo) == x.kind->Tempo_0,
        !is_tempo_change(x) ==> last_tempo(entries.push(x), tempo) == last_tempo(entries, tempo),
{
    assert(entries.push(x).drop_last() =~= entries);
}

/// The tempo in force after a run of entries is the value of its last tempo
/// change, or the tempo before the run where the run holds no tempo change.
pub proof fn lemma_last_tempo_is_last_change(entries: Seq<TrackEntry>, tempo: u32)
    ensures
        (forall|i: int| 0 <= i < entries.len() ==> !is_tempo_change(#[trigger] entries[i]))
            ==> last_tempo(entries, tempo) == tempo,
        forall|i: int|
            0 <= i < entries.len() && is_tempo_change(#[trigger] entries[i]) && (forall|j: int|
                i < j < entries.len() ==> !is_tempo_change(#[trigger] entries[j])) ==> last_tempo(
                entries,
                tempo,
            ) == entries[i].kind->Tempo_0,
    decreases entries.len(),
{
    if entries.len() > 0 {
        let e0 = entries.drop_last();
        let x = entries.last();
        lemma_last_tempo_is_last_change(e0, tempo);
        lemma_last_tempo_step(e0, x, tempo);
        assert(e0.push(x) =~= entries);
        if forall|i: int| 0 <= i < entries.len() ==> !is_tempo_change(#[trigger] entries[i]) {
            assert(!is_tempo_change(entries[entries.len() - 1]));
            assert forall|i: int| 0 <= i < e0.len() implies !is_tempo_change(#[trigger] e0[i]) by {
                assert(e0[i] == entries[i]);
            }
        }
        assert forall|i: int|
            0 <= i < entries.len() && is_tempo_change(#[trigger] entries[i]) && (forall|j: int|
                i < j < entries.len() ==> !is_tempo_change(#[trigger] entries[j])) implies last_tempo(
            entries,
            tempo,
        ) == entries[i].kind->Tempo_0 by {
            if i < entries.len() - 1 {
                assert(!is_tempo_change(entries[entries.len() - 1]));
                assert(e0[i] == entries[i]);
                assert forall|j: int| i < j < e0.len() implies !is_tempo_change(#[trigger] e0[j]) by {
                    assert(e0[j] == entries[j]);
                }
            }
        }
    }
}

/// The tempo in force after a run of events does not depend on the tempo
/// before it once that tempo is itself what the run leaves in force: reading
/// the run again changes nothing.
pub proof fn lemma_last_tempo_idempotent(entries: Seq<TrackEntry>, tempo: u32)
    ensures
        last_tempo(entries, last_tempo(entries, tempo)) == last_tempo(entries, tempo),
    decreases entries.len(),
{
    if entries.len() > 0 {
        match entries.last().kind {
            EntryKind::Tempo(_) => {},
            _ => lemma_last_tempo_idempotent(entries.drop_last(), tempo),
        }
    }
}

/// Two tick-ordered runs that hold, tick by tick, the same events in the same
/// order are one run.
proof fn lemma_sorted_same_ticks_equal(a: Seq<MidiEvent>, b: Seq<MidiEvent>)
    requires
        sorted_by_time(a),
        sorted_by_time(b),
        forall|t: u64| #[trigger] a.filter(at_tick(t)) == b.filter(at_tick(t)),
    ensures
        a == b,
    decreases a.len() + b.len(),
{
    broadcast use Seq::lemma_filter_len;

    if a.len() == 0 && b.len() == 0 {
        assert(a =~= b);
    } else if a.len() == 0 {
        let t = b.last().absolute_time;
        b.lemma_filter_contains(at_tick(t), b.len() - 1);
        assert(a.filter(at_tick(t)).len() == 0);
    } else if b.len() == 0 {
        let t = a.last().absolute_time;
        a.lemma_filter_contains(at_tick(t), a.len() - 1);
        assert(b.filter(at_tick(t)).len() == 0);
    } else {
        let x = a.last();
        let y = b.last();
        if x.absolute_time < y.absolute_time {
            b.lemma_filter_contains(at_tick(y.absolute_time), b.len() - 1);
            assert(a.filter(at_tick(y.absolute_time)).contains(y));
            a.lemma_filter_contains_rev(at_tick(y.absolute_time), y);
            let k = choose|k: int| 0 <= k < a.len() && a[k] == y;
            assert(a[k].absolute_time <= a[a.len() - 1].absolute_time);
        }
        if y.absolute_time < x.absolute_time {
            a.lemma_filter_contains(at_tick(x.absolute_time), a.len() - 1);
            assert(b.filter(at_tick(x.absolute_time)).contains(x));
            b.lemma_filter_contains_rev(at_tick(x.absolute_time), x);
            let k = choose|k: int| 0 <= k < b.len() && b[k] == x;
            assert(b[k].absolute_time <= b[b.len() - 1].absolute_time);
        }
        let a0 = a.drop_last();
        let b0 = b.drop_last();
        assert(a =~= a0.push(x));
        assert(b =~= b0.push(y));
        a0.lemma_filter_push(x, at_tick(x.absolute_time));
        b0.lemma_filter_push(y, at_tick(x.absolute_time));
        assert(a.filter(at_tick(x.absolute_time)) == b.filter(at_tick(x.absolute_time)));
        assert(x == a.filter(at_tick(x.absolute_time)).last());
        assert(y == b.filter(at_tick(x.absolute_time)).last());
        assert forall|t: u64| #[trigger] a0.filter(at_tick(t)) == b0.filter(at_tick(t)) by {
            a0.lemma_filter_push(x, at_tick(t));
            b0.lemma_filter_push(y, at_tick(t));
            assert(a.filter(at_tick(t)) == b.filter(at_tick(t)));
            if t == x.absolute_time {
                assert(a0.filter(at_tick(t)) =~= a.filter(at_tick(t)).drop_last());
                assert(b0.filter(at_tick(t)) =~= b.filter(at_tick(t)).drop_last());
            }
        }
        assert forall|i: int, j: int| 0 <= i <= j < a0.len() implies a0[i].absolute_time
            <= a0[j].absolute_time by {
            assert(a0[i] == a[i] && a0[j] == a[j]);
        }
        assert forall|i: int, j: int| 0 <= i <= j < b0.len() implies b0[i].absolute_time
            <= b0[j].absolute_time by {
            assert(b0[i] == b[i] && b0[j] == b[j]);
        }
        lemma_sorted_same_ticks_equal(a0, b0);
    }
}

/// The stable order by tick of a run of events is unique: two runs that
/// both put `input` in stable tick order are the same run.
pub proof fn lemma_stable_time_order_unique(
    a: Seq<MidiEvent>,
    b: Seq<MidiEvent>,
    input: Seq<MidiEvent>,
)
    requires
        stable_time_order(a, input),
        stable_time_order(b, input),
    ensures
        a == b,
{
    assert forall|t: u64| #[trigger] a.filter(at_tick(t)) == b.filter(at_tick(t)) by {
        assert(a.filter(at_tick(t)) == input.filter(at_tick(t)));
        assert(b.filter(at_tick(t)) == input.filter(at_tick(t)));
    }
    lemma_sorted_same_ticks_equal(a, b);
}

/// Merges two tick-ordered runs, taking from `a` on equal ticks.
pub(crate) fn merge_by_time(a: Vec<MidiEvent>, b: Vec<MidiEvent>) -> (r: Vec<MidiEvent>)
    requires
        sorted_by_time(a@),
        sorted_by_time(b@),
    ensures
        sorted_by_time(r@),
        forall|t: u64| #[trigger] r@.filter(at_tick(t)) == a@.filter(at_tick(t)) + b@.filter(
            at_tick(t),
        ),
        r@.to_multiset() == a@.to_multiset().add(b@.to_multiset()),
{
    broadcast use Seq::lemma_filter_push, Seq::push_distributes_over_add;
    broadcast use vstd::multiset::group_multiset_axioms;

    let mut out: Vec<MidiEvent> = Vec::new();
    proof {
        assert(a@.take(0) =~= Seq::<MidiEvent>::empty());
        assert(b@.take(0) =~= Seq::<MidiEvent>::empty());
        Seq::<MidiEvent>::empty().to_multiset_ensures();
        assert(Seq::<MidiEvent>::empty().to_multiset() =~= vstd::multiset::Multiset::empty());
    }
    let mut i: usize = 0;
    let mut j: usize = 0;
    while i < a.len() || j < b.len()
        invariant
            i <= a.len(),
            j <= b.len(),
            sorted_by_time(a@),
            sorted_by_time(b@),
            sorted_by_time(out@),
            out@.len() > 0 && i < a.len() ==> out@.last().absolute_time <= a@[i as int].absolute_time,
            out@.len() > 0 && j < b.len() ==> out@.last().absolute_time <= b@[j as int].absolute_time,
            i < a.len() ==> forall|k: int|
                0 <= k < j ==> #[trigger] b@[k].absolute_time < a@[i as int].absolute_time,
            forall|t: u64| #[trigger] out@.filter(at_tick(t)) == a@.take(i as int).filter(at_tick(t))
                + b@.take(j as int).filter(at_tick(t)),
            out@.to_multiset() == a@.take(i as int).to_multiset().add(b@.take(j as int).to_multiset()),
        decreases a.len() + b.len() - i - j,
    {
        if i < a.len() && (j >= b.len() || a[i].absolute_time <= b[j].absolute_time) {
            let e = a[i];
            proof {
                let ai = a@.take(i as int);
                let bj = b@.take(j as int);
                assert forall|t: u64| #[trigger] out@.push(e).filter(at_tick(t)) == a@.take(
                    i + 1,
                ).filter(at_tick(t)) + bj.filter(at_tick(t)) by {
                    let p = at_tick(t);
                    assert(a@.take(i + 1) =~= ai.push(e));
                    assert(out@.filter(p) == ai.filter(p) + bj.filter(p));
                    out@.lemma_filter_push(e, p);
                    assert(out@.push(e).filter(p) == if p(e) {
                        out@.filter(p).push(e)
                    } else {
                        out@.filter(p)
                    });
                    ai.lemma_filter_push(e, p);
                    assert(ai.push(e).filter(p) == if p(e) {
                        ai.filter(p).push(e)
                    } else {
                        ai.filter(p)
                    });
                    if p(e) {
                        assert forall|k: int| 0 <= k < bj.len() implies !p(bj[k]) by {
                            assert(bj[k] == b@[k]);
                        }
                        bj.lemma_all_neg_filter_empty(p);
                        assert(ai.filter(p) + bj.filter(p) =~= ai.filter(p));
                        assert(ai.filter(p).push(e) + bj.filter(p) =~= ai.filter(p).push(e));
                    }
                }
            }
            proof {
                out@.to_multiset_ensures();
                a@.take(i as int).to_multiset_ensures();
                assert(a@.take(i + 1) =~= a@.take(i as int).push(e));
            }
            out.push(e);
            i = i + 1;
        } else {
            let e = b[j];
            proof {
                let ai = a@.take(i as int);
                let bj = b@.take(j as int);
                assert forall|t: u64| #[trigger] out@.push(e).filter(at_tick(t)) == ai.filter(
                    at_tick(t),
                ) + b@.take(j + 1).filter(at_tick(t)) by {
                    let p = at_tick(t);
                    assert(b@.take(j + 1) =~= bj.push(e));
                    assert(out@.filter(p) == ai.filter(p) + bj.filter(p));
                    out@.lemma_filter_push(e, p);
                    assert(out@.push(e).filter(p) == if p(e) {
                        out@.filter(p).push(e)
                    } else {
                        out@.filter(p)
                    });
                    bj.lemma_filter_push(e, p);
                    assert(bj.push(e).filter(p) == if p(e) {
                        bj.filter(p).push(e)
                    } else {
                        bj.filter(p)
                    });
                }
            }
            proof {
                out@.to_multiset_ensures();
                b@.take(j as int).to_multiset_ensures();
                assert(b@.take(j + 1) =~= b@.take(j as int).push(e));
            }
            out.push(e);
            j = j + 1;
        }
    }
    proof {
        assert(a@.take(a@.len() as int) =~= a@);
        assert(b@.take(b@.len() as int) =~= b@);
    }
    out
}

} // verus!
