//! Compiled MIDI data: events on an absolute-tick timeline.
//!
//! A standard MIDI file holds several tracks, each a list of events with
//! delta times. The compiler merges them into one chronological list, a
//! [`MidiTrack`]. The merge picks, again and again, the track whose next
//! pending event is earliest (ties go to the lowest track index), so events
//! of one source track keep their order and the merged timeline is
//! non-decreasing.

use crate::fixed::{
    fp_floor, mul_div_sat, mul_sat, sat_add, spec_fp_floor, spec_sat64, spec_sat_add, FP_ONE,
};
use vstd::prelude::*;

verus! {

/// One compiled MIDI event. Tempo is carried as beats per minute in Q32.32
/// fixed point.
#[derive(Clone, Copy, Debug, PartialEq, Eq, Structural)]
pub enum MidiEvent {
    NoteOn { channel: u8, note: u8, velocity: u8 },
    NoteOff { channel: u8, note: u8 },
    SetTempo { beats_per_minute: u64 },
}

/// A recognized meta event of a MIDI file. Only the tempo meta event
/// carries meaning for playback; every other meta event is dropped at
/// parse time.
#[derive(Clone, Copy, Debug, PartialEq, Eq, Structural)]
pub enum MidiMetaEvent {
    Tempo { beats_per_minute: u64 },
}

impl MidiMetaEvent {
    /// The compiled event this meta event stands for.
    pub fn as_event(self) -> (r: MidiEvent)
        ensures
            r == self.spec_as_event(),
    {
        match self {
            MidiMetaEvent::Tempo { beats_per_minute } => MidiEvent::SetTempo { beats_per_minute },
        }
    }

    /// The compiled event this meta event stands for.
    pub open spec fn spec_as_event(self) -> MidiEvent {
        match self {
            MidiMetaEvent::Tempo { beats_per_minute } => MidiEvent::SetTempo { beats_per_minute },
        }
    }
}

/// An event stamped with its absolute time in ticks.
#[derive(Clone, Copy, Debug, PartialEq, Eq, Structural)]
pub struct MidiTrackAccumulateEvent {
    pub time: u64,
    pub inner: MidiEvent,
}

/// A compiled MIDI track: all events of a file on one absolute timeline,
/// plus the tick resolution from the file header.
#[derive(Clone, Debug)]
pub struct MidiTrack {
    pub events: Vec<MidiTrackAccumulateEvent>,
    pub ticks_per_beat: u16,
}

/// A parsed MIDI file before compilation: the tick resolution and, per
/// source track, the recognized events with absolute times local to that
/// track.
#[derive(Clone, Debug)]
pub struct MidiFile {
    pub ticks_per_beat: u16,
    pub tracks: Vec<Vec<MidiTrackAccumulateEvent>>,
}

/// Whether the event times of a sequence never decrease.
pub open spec fn spec_times_sorted(s: Seq<MidiTrackAccumulateEvent>) -> bool {
    forall|i: int, j: int| 0 <= i <= j < s.len() ==> s[i].time <= s[j].time
}

/// The views of a vector of event vectors.
pub open spec fn spec_track_views(ts: Seq<Vec<MidiTrackAccumulateEvent>>) -> Seq<
    Seq<MidiTrackAccumulateEvent>,
> {
    ts.map_values(|t: Vec<MidiTrackAccumulateEvent>| t@)
}

/// How many events are pending over all tracks.
pub open spec fn spec_total_len(ts: Seq<Seq<MidiTrackAccumulateEvent>>) -> nat
    decreases ts.len(),
{
    if ts.len() == 0 {
        0
    } else {
        ts[0].len() + spec_total_len(ts.drop_first())
    }
}

/// The first track index, at or after `i`, whose pending first event is
/// earliest among the tracks at or after `i`. Empty tracks do not compete.
pub open spec fn spec_pick_from(ts: Seq<Seq<MidiTrackAccumulateEvent>>, i: int) -> int
    recommends
        0 <= i < ts.len(),
    decreases ts.len() - i,
{
    if i + 1 >= ts.len() {
        i
    } else {
        let r = spec_pick_from(ts, i + 1);
        if ts[i].len() > 0 && (ts[r].len() == 0 || ts[i][0].time <= ts[r][0].time) {
            i
        } else {
            r
        }
    }
}

/// The merged event list: repeatedly emit the pending event of the picked
/// track.
pub open spec fn spec_merge(ts: Seq<Seq<MidiTrackAccumulateEvent>>) -> Seq<
    MidiTrackAccumulateEvent,
>
    decreases spec_total_len(ts),
    via spec_merge_decreases
{
    if spec_total_len(ts) == 0 {
        Seq::empty()
    } else {
        let k = spec_pick_from(ts, 0);
        seq![ts[k][0]] + spec_merge(ts.update(k, ts[k].drop_first()))
    }
}

#[via_fn]
proof fn spec_merge_decreases(ts: Seq<Seq<MidiTrackAccumulateEvent>>) {
    if spec_total_len(ts) != 0 {
        lemma_total_len_some_nonempty(ts);
        let k = spec_pick_from(ts, 0);
        lemma_pick_from(ts, 0);
        lemma_total_len_update(ts, k, ts[k].drop_first());
    }
}

/// A sequence of tracks with pending events somewhere has a nonempty track,
/// and conversely.
pub proof fn lemma_total_len_some_nonempty(ts: Seq<Seq<MidiTrackAccumulateEvent>>)
    ensures
        spec_total_len(ts) != 0 <==> exists|i: int| 0 <= i < ts.len() && ts[i].len() > 0,
    decreases ts.len(),
{
    if ts.len() == 0 {
    } else {
        lemma_total_len_some_nonempty(ts.drop_first());
        if ts[0].len() > 0 {
            assert(0 <= 0 < ts.len() && ts[0].len() > 0);
        } else if spec_total_len(ts.drop_first()) != 0 {
            let i = choose|i: int| 0 <= i < ts.drop_first().len() && ts.drop_first()[i].len() > 0;
            assert(ts[i + 1].len() > 0);
        } else {
            assert forall|i: int| 0 <= i < ts.len() implies ts[i].len() == 0 by {
                if i > 0 {
                    assert(ts.drop_first()[i - 1].len() == 0);
                }
            }
        }
    }
}

/// Replacing one track changes the total count by the difference of that
/// track's lengths.
pub proof fn lemma_total_len_update(
    ts: Seq<Seq<MidiTrackAccumulateEvent>>,
    k: int,
    t: Seq<MidiTrackAccumulateEvent>,
)
    requires
        0 <= k < ts.len(),
    ensures
        spec_total_len(ts.update(k, t)) + ts[k].len() == spec_total_len(ts) + t.len(),
    decreases ts.len(),
{
    if k == 0 {
        assert(ts.update(0, t).drop_first() =~= ts.drop_first());
    } else {
        assert(ts.update(k, t).drop_first() =~= ts.drop_first().update(k - 1, t));
        lemma_total_len_update(ts.drop_first(), k - 1, t);
    }
}

/// The pick always lands between `i` and the end.
pub proof fn lemma_pick_from_range(ts: Seq<Seq<MidiTrackAccumulateEvent>>, i: int)
    requires
        0 <= i < ts.len(),
    ensures
        i <= spec_pick_from(ts, i) < ts.len(),
    decreases ts.len() - i,
{
    if i + 1 < ts.len() {
        lemma_pick_from_range(ts, i + 1);
    }
}

/// What the pick satisfies: it is a nonempty track, its pending event is
/// earliest, and no earlier-indexed track ties it.
pub proof fn lemma_pick_from(ts: Seq<Seq<MidiTrackAccumulateEvent>>, i: int)
    requires
        0 <= i < ts.len(),
        exists|j: int| i <= j < ts.len() && ts[j].len() > 0,
    ensures
        i <= spec_pick_from(ts, i) < ts.len(),
        ts[spec_pick_from(ts, i)].len() > 0,
        forall|j: int|
            i <= j < ts.len() && ts[j].len() > 0 ==> ts[spec_pick_from(ts, i)][0].time
                <= ts[j][0].time,
        forall|j: int|
            i <= j < spec_pick_from(ts, i) && ts[j].len() > 0 ==> ts[j][0].time
                > ts[spec_pick_from(ts, i)][0].time,
    decreases ts.len() - i,
{
    if i + 1 >= ts.len() {
    } else {
        let k = spec_pick_from(ts, i);
        let r = spec_pick_from(ts, i + 1);
        lemma_pick_from_range(ts, i + 1);
        if exists|j: int| i + 1 <= j < ts.len() && ts[j].len() > 0 {
            lemma_pick_from(ts, i + 1);
            assert(ts[k].len() > 0);
        } else {
            assert(ts[i].len() > 0);
            assert(ts[r].len() == 0);
            assert(k == i);
        }
    }
}

/// The pick is the only index with those properties, so an index found by
/// a scan equals it.
pub proof fn lemma_pick_unique(ts: Seq<Seq<MidiTrackAccumulateEvent>>, b: int)
    requires
        0 <= b < ts.len(),
        ts[b].len() > 0,
        forall|j: int| 0 <= j < ts.len() && ts[j].len() > 0 ==> ts[b][0].time <= ts[j][0].time,
        forall|j: int| 0 <= j < b && ts[j].len() > 0 ==> ts[j][0].time > ts[b][0].time,
    ensures
        spec_pick_from(ts, 0) == b,
{
    lemma_pick_from(ts, 0);
    let k = spec_pick_from(ts, 0);
    if k < b {
        assert(ts[k][0].time > ts[b][0].time);
        assert(ts[b][0].time <= ts[k][0].time);
    } else if b < k {
        assert(ts[b][0].time > ts[k][0].time);
        assert(ts[k][0].time <= ts[b][0].time);
    }
}

impl MidiTrack {
    /// Compiles a parsed file into a single chronological event list by a
    /// k-way merge of its tracks.
    pub fn from_midi_file(file: MidiFile) -> (r: MidiTrack)
        ensures
            r.events@ == spec_merge(spec_track_views(file.tracks@)),
            r.ticks_per_beat == file.ticks_per_beat,
    {
        let tracks = file.tracks;
        let n = tracks.len();
        let mut cursors: Vec<usize> = Vec::new();
        let mut events: Vec<MidiTrackAccumulateEvent> = Vec::new();
        let mut i: usize = 0;
        while i < n
            invariant
                i <= n,
                cursors.len() == i,
                forall|j: int| 0 <= j < i ==> cursors[j] == 0,
            decreases n - i,
        {
            cursors.push(0);
            i += 1;
        }
        proof {
            assert forall|idx: int| 0 <= idx < tracks@.len() implies spec_remaining(
                tracks@,
                cursors@,
            )[idx] == spec_track_views(tracks@)[idx] by {
                assert(tracks@[idx]@.skip(0) =~= tracks@[idx]@);
            }
            assert(spec_remaining(tracks@, cursors@) =~= spec_track_views(tracks@));
        }
        loop
            invariant
                n == tracks.len(),
                cursors.len() == n,
                forall|j: int| 0 <= j < n ==> cursors[j] <= tracks[j]@.len(),
                events@ + spec_merge(spec_remaining(tracks@, cursors@)) == spec_merge(
                    spec_track_views(tracks@),
                ),
            ensures
                events@ == spec_merge(spec_track_views(tracks@)),
            decreases spec_total_len(spec_remaining(tracks@, cursors@)),
        {
            let ghost rem = spec_remaining(tracks@, cursors@);
            // scan for the first track with the earliest pending event
            let mut best: usize = n;
            let mut j: usize = 0;
            while j < n
                invariant
                    n == tracks.len(),
                    cursors.len() == n,
                    forall|t: int| 0 <= t < n ==> cursors[t] <= tracks[t]@.len(),
                    rem == spec_remaining(tracks@, cursors@),
                    j <= n,
                    best <= n,
                    best < n ==> rem[best as int].len() > 0,
                    best < n ==> best < j,
                    forall|t: int| 0 <= t < j && rem[t].len() > 0 ==> best < n,
                    forall|t: int|
                        0 <= t < j && rem[t].len() > 0 && best < n ==> rem[best as int][0].time
                            <= rem[t][0].time,
                    forall|t: int|
                        0 <= t < best && best < n && rem[t].len() > 0 ==> rem[t][0].time
                            > rem[best as int][0].time,
                decreases n - j,
            {
                if cursors[j] < tracks[j].len() {
                    let cand_time = tracks[j][cursors[j]].time;
                    assert(rem[j as int][0].time == cand_time);
                    if best == n || cand_time < tracks[best][cursors[best]].time {
                        best = j;
                    }
                }
                j += 1;
            }
            if best == n {
                // every track is exhausted
                proof {
                    lemma_total_len_some_nonempty(rem);
                    assert(spec_total_len(rem) == 0);
                }
                break ;
            }
            let ev = tracks[best][cursors[best]];
            let c = cursors[best];
            assert(c < tracks[best as int]@.len());
            let len_best = tracks[best].len();
            assert(c < len_best);
            let c2 = c + 1;
            proof {
                lemma_pick_unique(rem, best as int);
                lemma_total_len_some_nonempty(rem);
                assert(rem[best as int][0] == ev);
                let rem2 = rem.update(best as int, rem[best as int].drop_first());
                assert(rem2 =~~= spec_remaining(tracks@, cursors@.update(best as int, c2)));
                lemma_total_len_update(rem, best as int, rem[best as int].drop_first());
                assert(spec_merge(rem) == seq![ev] + spec_merge(rem2));
                assert(events@.push(ev) + spec_merge(rem2) == events@ + spec_merge(rem)) by {
                    assert(events@.push(ev) + spec_merge(rem2) =~= events@ + (seq![ev]
                        + spec_merge(rem2)));
                }
            }
            events.push(ev);
            cursors.set(best, c2);
        }
        MidiTrack { events, ticks_per_beat: file.ticks_per_beat }
    }
}

/// Microseconds in one minute; tempo conversions divide by it.
pub const MICROS_PER_MINUTE: u64 = 60_000_000;

/// A lightweight sequencer over a compiled track, driven by wall-clock
/// time. It follows the timeline, applies tempo changes, and wraps around
/// at the end of the event list.
#[derive(Clone, Debug)]
pub struct MidiSequencer {
    pub midi_track: MidiTrack,
    /// Position on the timeline, in Q32.32 ticks.
    pub tick: u64,
    pub event_index: usize,
    /// Position in Q32.32 beats.
    pub beat: u64,
    /// Current tempo in Q32.32 beats per minute.
    pub bpm: u64,
    /// An optional start-up delay in microseconds.
    pub delay: Option<u64>,
}

/// Beats advanced in `micros` microseconds at tempo `bpm`.
pub open spec fn spec_beat_delta(bpm: u64, micros: u64) -> u64 {
    spec_sat64(bpm * micros / MICROS_PER_MINUTE as int)
}

/// Walking the event list from `i`: every event already due at `tick_floor`
/// is passed, and the last tempo event passed sets the tempo. The result is
/// the new cursor and the new tempo.
pub open spec fn spec_advance_events(
    events: Seq<MidiTrackAccumulateEvent>,
    i: int,
    tick_floor: int,
    bpm: u64,
) -> (int, u64)
    decreases events.len() - i,
{
    if i < 0 || i >= events.len() || events[i].time > tick_floor {
        (i, bpm)
    } else {
        let next_bpm = match events[i].inner {
            MidiEvent::SetTempo { beats_per_minute } => beats_per_minute,
            _ => bpm,
        };
        spec_advance_events(events, i + 1, tick_floor, next_bpm)
    }
}

impl MidiSequencer {
    /// The cursor sits at the start or on a pending event.
    pub open spec fn wf(self) -> bool {
        self.event_index == 0 || self.event_index < self.midi_track.events@.len()
    }

    /// A sequencer at the start of the given track, at 120 beats per
    /// minute.
    pub fn new(midi_track: MidiTrack) -> (r: MidiSequencer)
        ensures
            r.midi_track == midi_track,
            r.tick == 0,
            r.event_index == 0,
            r.beat == 0,
            r.bpm == 120 * FP_ONE,
            r.delay == Some(1_000_000u64),
            r.wf(),
    {
        MidiSequencer {
            midi_track,
            tick: 0,
            event_index: 0,
            beat: 0,
            bpm: 120 * FP_ONE,
            delay: Some(1_000_000),
        }
    }

    /// Beats that pass in the given wall-clock span at the current tempo,
    /// in Q32.32 fixed point.
    pub fn time_to_bpm_beat(&self, delta_micros: u64) -> (r: u64)
        ensures
            r == spec_beat_delta(self.bpm, delta_micros),
    {
        mul_div_sat(self.bpm, delta_micros, MICROS_PER_MINUTE)
    }

    /// Advances the timeline by a wall-clock span: accumulates ticks and
    /// beats at the current tempo, passes every event now due (applying
    /// tempo changes), and on exhausting the list wraps the cursor to the
    /// start, pulling the tick position back by the final event's time.
    pub fn tick(&mut self, delta_micros: u64)
        requires
            old(self).wf(),
        ensures
            final(self).wf(),
            ({
                let events = old(self).midi_track.events@;
                let n = events.len() as int;
                let dbeat = spec_beat_delta(old(self).bpm, delta_micros);
                let t0 = spec_sat_add(
                    old(self).tick,
                    spec_sat64(old(self).midi_track.ticks_per_beat * dbeat),
                );
                let st = spec_advance_events(
                    events,
                    old(self).event_index as int,
                    spec_fp_floor(t0),
                    old(self).bpm,
                );
                &&& final(self).midi_track == old(self).midi_track
                &&& final(self).delay == old(self).delay
                &&& final(self).bpm == st.1
                &&& final(self).beat == spec_sat_add(old(self).beat, dbeat)
                &&& if st.0 >= n && n > 0 {
                    &&& final(self).event_index == 0
                    &&& final(self).tick == t0 - events[n - 1].time * FP_ONE
                } else {
                    &&& final(self).event_index == st.0
                    &&& final(self).tick == t0
                }
            }),
    {
        let ghost i0 = self.event_index as int;
        let ghost bpm0 = self.bpm;
        let dbeat = mul_div_sat(self.bpm, delta_micros, MICROS_PER_MINUTE);
        let dtick = mul_sat(self.midi_track.ticks_per_beat as u64, dbeat);
        self.tick = sat_add(self.tick, dtick);
        let tick_floor = fp_floor(self.tick);
        let n = self.midi_track.events.len();
        while self.event_index < n && self.midi_track.events[self.event_index].time <= tick_floor
            invariant
                n == self.midi_track.events@.len(),
                self.midi_track == old(self).midi_track,
                i0 <= self.event_index <= n,
                tick_floor == spec_fp_floor(self.tick),
                self.tick == spec_sat_add(
                    old(self).tick,
                    spec_sat64(
                        old(self).midi_track.ticks_per_beat * spec_beat_delta(
                            old(self).bpm,
                            delta_micros,
                        ),
                    ),
                ),
                self.beat == old(self).beat,
                self.delay == old(self).delay,
                spec_advance_events(self.midi_track.events@, i0, tick_floor as int, bpm0)
                    == spec_advance_events(
                    self.midi_track.events@,
                    self.event_index as int,
                    tick_floor as int,
                    self.bpm,
                ),
                forall|j: int|
                    i0 <= j < self.event_index ==> self.midi_track.events@[j].time <= tick_floor,
            decreases n - self.event_index,
        {
            match self.midi_track.events[self.event_index].inner {
                MidiEvent::SetTempo { beats_per_minute } => {
                    self.bpm = beats_per_minute;
                },
                _ => {},
            }
            self.event_index = self.event_index + 1;
        }
        self.beat = sat_add(self.beat, dbeat);
        if self.event_index >= n && n > 0 {
            let last_time = self.midi_track.events[n - 1].time;
            assert(last_time <= tick_floor);
            assert(tick_floor < 0x1_0000_0000) by {
                assert(spec_fp_floor(self.tick) < 0x1_0000_0000);
            }
            assert(self.tick >= last_time * FP_ONE) by {
                assert(self.tick >= spec_fp_floor(self.tick) * FP_ONE);
                assert(spec_fp_floor(self.tick) * FP_ONE >= last_time * FP_ONE);
            }
            self.event_index = 0;
            self.tick = self.tick - last_time * FP_ONE;
        }
    }
}

/// The events of each track still pending at the given cursors.
pub open spec fn spec_remaining(
    ts: Seq<Vec<MidiTrackAccumulateEvent>>,
    cursors: Seq<usize>,
) -> Seq<Seq<MidiTrackAccumulateEvent>> {
    Seq::new(ts.len(), |i: int| ts[i]@.skip(cursors[i] as int))
}

/// Merging tracks whose own timelines never decrease yields a timeline that
/// never decreases, and the merged list starts at the earliest pending
/// event.
pub proof fn lemma_merge_sorted(ts: Seq<Seq<MidiTrackAccumulateEvent>>)
    requires
        forall|i: int| 0 <= i < ts.len() ==> spec_times_sorted(#[trigger] ts[i]),
    ensures
        spec_times_sorted(spec_merge(ts)),
        spec_merge(ts).len() > 0 ==> forall|j: int|
            0 <= j < ts.len() && ts[j].len() > 0 ==> spec_merge(ts)[0].time <= ts[j][0].time,
    decreases spec_total_len(ts),
{
    if spec_total_len(ts) == 0 {
    } else {
        lemma_total_len_some_nonempty(ts);
        let k = spec_pick_from(ts, 0);
        lemma_pick_from(ts, 0);
        let ts2 = ts.update(k, ts[k].drop_first());
        lemma_total_len_update(ts, k, ts[k].drop_first());
        assert forall|i: int| 0 <= i < ts2.len() implies spec_times_sorted(#[trigger] ts2[i]) by {
            if i == k {
                assert forall|a: int, b: int| 0 <= a <= b < ts2[i].len() implies ts2[i][a].time
                    <= ts2[i][b].time by {
                    assert(ts2[i][a] == ts[k][a + 1]);
                    assert(ts2[i][b] == ts[k][b + 1]);
                }
            }
        }
        lemma_merge_sorted(ts2);
        let m = spec_merge(ts);
        let rest = spec_merge(ts2);
        assert(m == seq![ts[k][0]] + rest);
        if rest.len() > 0 {
            lemma_total_len_some_nonempty(ts2);
            assert forall|j: int|
                0 <= j < ts2.len() && ts2[j].len() > 0 implies ts[k][0].time
                <= ts2[j][0].time by {
                if j == k {
                    assert(ts2[j][0] == ts[k][1]);
                } else {
                    assert(ts2[j][0] == ts[j][0]);
                }
            }
            let w = choose|j: int| 0 <= j < ts2.len() && ts2[j].len() > 0;
            assert(rest[0].time <= ts2[w][0].time) by {
                lemma_total_len_some_nonempty(ts2);
            }
        }
        assert forall|a: int, b: int| 0 <= a <= b < m.len() implies m[a].time <= m[b].time by {
            if a == 0 && b > 0 {
                assert(m[b] == rest[b - 1]);
                if rest.len() > 0 {
                    let p = spec_pick_from(ts2, 0);
                    lemma_pick_from(ts2, 0);
                    assert(rest[0].time <= ts2[p][0].time);
                    assert(ts[k][0].time <= ts2[p][0].time);
                }
            } else if a > 0 {
                assert(m[a] == rest[a - 1]);
                assert(m[b] == rest[b - 1]);
            }
        }
    }
}

} // verus!
