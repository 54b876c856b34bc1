//! The per-track sequencer: playhead, channels, voices and the quantized
//! queue state machine.
//!
//! A track is stepped once per output frame. Each step advances the tick
//! and beat accumulators at the current tempo, notes which musical
//! boundaries (loop, bar, beat) the step crossed, resolves queued control
//! events that were due at a crossed boundary, and dispatches every
//! compiled MIDI event whose time has come: note-on creates voices
//! through the bank, note-off removes them, set-tempo changes the pace.
//! When the last event has been dispatched the track wraps to its start
//! and replays; the wrap resets the beat accumulator to zero, which is
//! what raises the loop boundary on the next step.

use crate::bank::{spec_lookup, SampleData, SoundFontBank};
use crate::fixed::{mul_div_sat, sat_add, spec_fp_floor, spec_sat64, spec_sat_add, FP_ONE};
use crate::midi::{MidiEvent, MidiTrack};
use crate::smf::MidiFileError;
use crate::voice::{
    spec_resample_speed, spec_sample_type_of_code, spec_samples_wf, resample_speed, SampleType,
    Voice, VoiceSample,
};
use vstd::prelude::*;

verus! {

/// A musical boundary a queued event can wait for.
#[derive(Clone, Copy, Debug, PartialEq, Eq, Structural)]
pub enum MidiQueueTiming {
    Loop,
    Bar,
    Beat,
}

/// Whether a queued event fires once or on every occurrence of its
/// boundary.
#[derive(Clone, Copy, Debug, PartialEq, Eq, Structural)]
pub enum MidiQueueLooping {
    Loop,
    Once,
}

/// What a queued event does when its boundary is crossed.
#[derive(Debug, PartialEq, Eq)]
pub enum MidiQueueEventType {
    Play,
    Stop,
    Queue(Box<MidiQueueEvent>),
}

/// A deferred control action: what to do, at which boundary, and whether
/// to repeat.
#[derive(Debug, PartialEq, Eq)]
pub struct MidiQueueEvent {
    pub event: MidiQueueEventType,
    pub timing: MidiQueueTiming,
    pub looping: MidiQueueLooping,
}

impl Clone for MidiQueueEventType {
    /// A structurally equal copy.
    fn clone(&self) -> (r: Self)
        ensures
            r == *self,
        decreases *self,
    {
        match self {
            MidiQueueEventType::Play => MidiQueueEventType::Play,
            MidiQueueEventType::Stop => MidiQueueEventType::Stop,
            MidiQueueEventType::Queue(next) => MidiQueueEventType::Queue(
                Box::new((**next).clone()),
            ),
        }
    }
}

impl Clone for MidiQueueEvent {
    /// A structurally equal copy.
    fn clone(&self) -> (r: Self)
        ensures
            r == *self,
        decreases *self,
    {
        MidiQueueEvent { event: self.event.clone(), timing: self.timing, looping: self.looping }
    }
}

/// The set of boundaries one step crossed.
#[derive(Clone, Copy, Debug, PartialEq, Eq, Structural, Default)]
pub struct MidiTimingSet {
    pub looped: bool,
    pub bar: bool,
    pub beat: bool,
}

/// Whether the set holds the given boundary.
pub open spec fn spec_timing_in(ts: MidiTimingSet, t: MidiQueueTiming) -> bool {
    match t {
        MidiQueueTiming::Loop => ts.looped,
        MidiQueueTiming::Bar => ts.bar,
        MidiQueueTiming::Beat => ts.beat,
    }
}

impl MidiTimingSet {
    /// The empty set: no boundary crossed.
    pub fn new() -> (r: MidiTimingSet)
        ensures
            r == (MidiTimingSet { looped: false, bar: false, beat: false }),
    {
        MidiTimingSet { looped: false, bar: false, beat: false }
    }

    /// Whether the set holds the given boundary.
    pub fn contains(&self, t: MidiQueueTiming) -> (r: bool)
        ensures
            r == spec_timing_in(*self, t),
    {
        match t {
            MidiQueueTiming::Loop => self.looped,
            MidiQueueTiming::Bar => self.bar,
            MidiQueueTiming::Beat => self.beat,
        }
    }
}

/// One of the sixteen MIDI channels of a track: its instrument selection
/// and its sounding voices.
#[derive(Clone, Debug)]
pub struct Channel {
    pub bank_number: u8,
    pub patch_number: u8,
    pub voices: Vec<Voice>,
}

/// The abstract value of a voice: its note and the plain sequence of its
/// sample regions.
pub struct VoiceView {
    pub note: u8,
    pub samples: Seq<VoiceSample>,
}

impl View for Voice {
    type V = VoiceView;

    open spec fn view(&self) -> VoiceView {
        VoiceView { note: self.note, samples: self.samples@ }
    }
}

/// The abstract value of a channel.
pub struct ChannelView {
    pub bank_number: u8,
    pub patch_number: u8,
    pub voices: Seq<VoiceView>,
}

impl View for Channel {
    type V = ChannelView;

    open spec fn view(&self) -> ChannelView {
        ChannelView {
            bank_number: self.bank_number,
            patch_number: self.patch_number,
            voices: self.voices@.map_values(|v: Voice| v@),
        }
    }
}

/// Every voice of the channel is well formed against the wave.
pub open spec fn spec_channel_wf(c: ChannelView, wave_len: int) -> bool {
    forall|i: int|
        0 <= i < c.voices.len() ==> spec_samples_wf((#[trigger] c.voices[i]).samples, wave_len)
}

/// The voices left when the one sounding the given note is removed.
pub open spec fn spec_remove_voice(vs: Seq<VoiceView>, note: u8) -> Seq<VoiceView>
    decreases vs.len(),
{
    if vs.len() == 0 {
        Seq::empty()
    } else {
        spec_remove_voice(vs.drop_last(), note) + (if vs.last().note == note {
            Seq::empty()
        } else {
            seq![vs.last()]
        })
    }
}

/// A playing track: its compiled events, sixteen channels, fixed-point
/// playhead state, pending queue and playing flag. All tick, beat, speed
/// and tempo fields are Q32.32.
#[derive(Clone, Debug)]
pub struct MidiAudioTrack {
    pub midi_track: MidiTrack,
    pub channels: Vec<Channel>,
    pub ticks_per_sample: u64,
    pub samples_per_second: u32,
    pub beats_per_second: u64,
    pub tick: u64,
    pub beat: u64,
    pub event_index: usize,
    pub beats_per_bar: u32,
    pub queue: Vec<MidiQueueEvent>,
    pub is_playing: bool,
}

/// The fixed output rate of the engine.
pub const SAMPLES_PER_SECOND: u32 = 44100;

/// The abstract value of a track: the same state with every collection a
/// sequence, so that the step functions below can be written as plain
/// functions of it.
pub struct TrackView {
    pub events: Seq<crate::midi::MidiTrackAccumulateEvent>,
    pub ticks_per_beat: u16,
    pub channels: Seq<ChannelView>,
    pub ticks_per_sample: u64,
    pub samples_per_second: u32,
    pub beats_per_second: u64,
    pub tick: u64,
    pub beat: u64,
    pub event_index: int,
    pub beats_per_bar: u32,
    pub queue: Seq<MidiQueueEvent>,
    pub is_playing: bool,
}

impl View for MidiAudioTrack {
    type V = TrackView;

    open spec fn view(&self) -> TrackView {
        TrackView {
            events: self.midi_track.events@,
            ticks_per_beat: self.midi_track.ticks_per_beat,
            channels: self.channels@.map_values(|c: Channel| c@),
            ticks_per_sample: self.ticks_per_sample,
            samples_per_second: self.samples_per_second,
            beats_per_second: self.beats_per_second,
            tick: self.tick,
            beat: self.beat,
            event_index: self.event_index as int,
            beats_per_bar: self.beats_per_bar,
            queue: self.queue@,
            is_playing: self.is_playing,
        }
    }
}

/// The ticks one output frame advances: ticks-per-beat times
/// beats-per-second over the sample rate, truncated, saturating.
pub open spec fn spec_ticks_per_sample(ticks_per_beat: u16, bps: u64, sps: u32) -> u64 {
    spec_sat64(ticks_per_beat * bps / sps as int)
}

impl MidiAudioTrack {
    /// Structurally sound, and every voice well formed against a wave of
    /// the given length: sixteen channels, a nonzero sample rate and bar
    /// length, and an event cursor at the start or on a pending event.
    pub open spec fn wf(self, wave_len: int) -> bool {
        &&& self.channels@.len() == 16
        &&& self.samples_per_second >= 1
        &&& self.beats_per_bar >= 1
        &&& self.event_index == 0 || self.event_index < self.midi_track.events@.len()
        &&& forall|c: int| 0 <= c < 16 ==> spec_channel_wf(#[trigger] self@.channels[c], wave_len)
    }

    /// A fresh track over a compiled event list: 120 beats per minute,
    /// the given beats per bar, percussion bank preselected on channel 9,
    /// playing from the start. A caller holding a time signature in
    /// quarter-note units multiplies it by four to get beats per bar
    /// (a signature of one whole is four beats).
    pub fn new(midi_track: MidiTrack, beats_per_bar: u32) -> (r: MidiAudioTrack)
        requires
            beats_per_bar >= 1,
        ensures
            r.midi_track == midi_track,
            r.beats_per_bar == beats_per_bar,
            r.samples_per_second == SAMPLES_PER_SECOND,
            r.beats_per_second == 2 * FP_ONE,
            r.ticks_per_sample == spec_ticks_per_sample(
                midi_track.ticks_per_beat,
                (2 * FP_ONE) as u64,
                SAMPLES_PER_SECOND,
            ),
            r.tick == 0 && r.beat == 0 && r.event_index == 0,
            r.queue@ == Seq::<MidiQueueEvent>::empty(),
            r.is_playing,
            forall|c: int|
                0 <= c < 16 ==> (#[trigger] r.channels@[c]).voices@.len() == 0
                    && r.channels@[c].patch_number == 0 && r.channels@[c].bank_number == (if c == 9 {
                    128u8
                } else {
                    0u8
                }),
            forall|w: int| r.wf(w),
    {
        let beats_per_second: u64 = 2 * FP_ONE;
        let ticks_per_sample = mul_div_sat(
            midi_track.ticks_per_beat as u64,
            beats_per_second,
            SAMPLES_PER_SECOND as u64,
        );
        let mut channels: Vec<Channel> = Vec::new();
        let mut i: usize = 0;
        while i < 16
            invariant
                i <= 16,
                channels@.len() == i,
                forall|c: int|
                    0 <= c < i ==> (#[trigger] channels@[c]).voices@.len() == 0
                        && channels@[c].patch_number == 0 && channels@[c].bank_number == (if c == 9 {
                        128u8
                    } else {
                        0u8
                    }),
            decreases 16 - i,
        {
            let bank_number: u8 = if i == 9 {
                128
            } else {
                0
            };
            channels.push(Channel { bank_number, patch_number: 0, voices: Vec::new() });
            i += 1;
        }
        MidiAudioTrack {
            midi_track,
            channels,
            ticks_per_sample,
            samples_per_second: SAMPLES_PER_SECOND,
            beats_per_second,
            tick: 0,
            beat: 0,
            event_index: 0,
            beats_per_bar,
            queue: Vec::new(),
            is_playing: true,
        }
    }

    /// Parses MIDI file bytes and makes a fresh track of them.
    pub fn from_bytes(track_bytes: &[u8], beats_per_bar: u32) -> (r: Result<
        MidiAudioTrack,
        MidiFileError,
    >)
        requires
            beats_per_bar >= 1,
        ensures
            r is Ok <==> crate::smf::spec_file_accepted(track_bytes@),
            r matches Ok(t) ==> {
                &&& crate::smf::spec_chunks(track_bytes@, 0) matches Some((Some(d), ts))
                    && t.midi_track.ticks_per_beat == d && t.midi_track.events@
                    == crate::midi::spec_merge(crate::smf::spec_parsed_tracks(ts))
                &&& crate::midi::spec_times_sorted(t.midi_track.events@)
                &&& t.beats_per_bar == beats_per_bar
                &&& t.is_playing
                &&& t.tick == 0 && t.beat == 0 && t.event_index == 0
                &&& forall|w: int| t.wf(w)
            },
    {
        match MidiTrack::from_bytes(track_bytes) {
            Ok(t) => Ok(MidiAudioTrack::new(t, beats_per_bar)),
            Err(e) => Err(e),
        }
    }

    /// This track with one channel's bank and patch selection replaced;
    /// the channel's voices start over empty.
    pub fn with_channel_patch(self, channel_number: u8, bank_number: u8, patch_number: u8) -> (r:
        MidiAudioTrack)
        requires
            channel_number < 16,
            self.channels@.len() == 16,
        ensures
            r.channels@.len() == 16,
            r.channels@[channel_number as int].bank_number == bank_number,
            r.channels@[channel_number as int].patch_number == patch_number,
            r.channels@[channel_number as int].voices@.len() == 0,
            forall|c: int|
                0 <= c < 16 && c != channel_number ==> r.channels@[c] == self.channels@[c],
            r == (MidiAudioTrack { channels: r.channels, ..self }),
    {
        let mut r = self;
        r.channels.set(
            channel_number as usize,
            Channel { bank_number, patch_number, voices: Vec::new() },
        );
        r
    }

    /// This track with a control event queued.
    pub fn with_queue(self, event: MidiQueueEvent) -> (r: MidiAudioTrack)
        ensures
            r.queue@ == self.queue@.push(event),
            r == (MidiAudioTrack { queue: r.queue, ..self }),
    {
        let mut r = self;
        r.queue.push(event);
        r
    }

    /// This track initially silent: it plays only once a queued Play
    /// fires.
    pub fn stopped(self) -> (r: MidiAudioTrack)
        ensures
            r == (MidiAudioTrack { is_playing: false, ..self }),
    {
        let mut r = self;
        r.is_playing = false;
        r
    }

    /// Advances the playhead by one output frame and notes the boundaries
    /// it crossed: the loop boundary when the beat accumulator stands at
    /// zero, the beat boundary when the whole beat count changes, and the
    /// bar boundary when, additionally, the whole bar count changes.
    pub fn tick_timing(&mut self, timings: &mut MidiTimingSet)
        requires
            old(self).samples_per_second >= 1,
            old(self).beats_per_bar >= 1,
        ensures
            ({
                let db = old(self).beats_per_second as int / old(self).samples_per_second as int;
                let b2 = spec_sat_add(old(self).beat, db as u64);
                let last_beat = spec_fp_floor(old(self).beat);
                let cur_beat = spec_fp_floor(b2);
                let crossed_beat = last_beat != cur_beat;
                let crossed_bar = crossed_beat && last_beat / old(self).beats_per_bar as int
                    != cur_beat / old(self).beats_per_bar as int;
                &&& *final(self) == (MidiAudioTrack {
                    tick: spec_sat_add(old(self).tick, old(self).ticks_per_sample),
                    beat: b2,
                    ..*old(self)
                })
                &&& final(timings).looped == (old(timings).looped || old(self).beat == 0)
                &&& final(timings).beat == (old(timings).beat || crossed_beat)
                &&& final(timings).bar == (old(timings).bar || crossed_bar)
            }),
    {
        self.tick = sat_add(self.tick, self.ticks_per_sample);
        if self.beat == 0 {
            timings.looped = true;
        }
        let last_beat = crate::fixed::fp_floor(self.beat);
        let last_bar = last_beat / self.beats_per_bar as u64;
        let delta_beat = self.beats_per_second / self.samples_per_second as u64;
        self.beat = sat_add(self.beat, delta_beat);
        let current_beat = crate::fixed::fp_floor(self.beat);
        let current_bar = current_beat / self.beats_per_bar as u64;
        if last_beat != current_beat {
            timings.beat = true;
            if last_bar != current_bar {
                timings.bar = true;
            }
        }
    }
}

/// Whether a resolved sample region can actually be voiced: sane wave
/// bounds, a recorded pitch in range, and a stereo kind this renderer
/// knows. A region that fails this resolves to silence, not to a fault.
pub open spec fn spec_valid_sample(sd: SampleData, wave_len: int) -> bool {
    &&& 0 <= sd.start < sd.end
    &&& sd.end <= wave_len - 1
    &&& 0 <= sd.original_pitch <= 255
    &&& -128 <= sd.pitch_correction <= 127
    &&& spec_sample_type_of_code(sd.sample_type) is Some
}

/// The velocity volume: velocity over 127, in Q32.32.
pub open spec fn spec_volume(velocity: u8) -> u64 {
    (velocity * FP_ONE / 127) as u64
}

/// The voice sample a region yields for a note at a velocity.
pub open spec fn spec_make_sample(sd: SampleData, note: u8, velocity: u8) -> VoiceSample {
    VoiceSample {
        speed: spec_resample_speed(
            note as int,
            sd.original_pitch as int,
            sd.pitch_correction as int,
        ),
        current_sample: (sd.start * FP_ONE) as u64,
        end_sample: (sd.end * FP_ONE) as u64,
        sample_type: spec_sample_type_of_code(sd.sample_type).unwrap(),
        volume: spec_volume(velocity),
    }
}

/// The voice samples of all voicable regions in the resolved list, in
/// order.
pub open spec fn spec_make_samples(
    list: Seq<SampleData>,
    note: u8,
    velocity: u8,
    wave_len: int,
) -> Seq<VoiceSample>
    decreases list.len(),
{
    if list.len() == 0 {
        Seq::empty()
    } else {
        spec_make_samples(list.drop_last(), note, velocity, wave_len) + (if spec_valid_sample(
            list.last(),
            wave_len,
        ) {
            seq![spec_make_sample(list.last(), note, velocity)]
        } else {
            Seq::empty()
        })
    }
}

/// The voice a note-on yields, if any: the bank resolves the channel's
/// bank and patch, every voicable region becomes a voice sample, and a
/// note with no voicable region yields no voice at all.
pub open spec fn spec_create_voice(
    t: TrackView,
    channel_index: u8,
    note: u8,
    velocity: u8,
    bank: SoundFontBank,
) -> Option<VoiceView> {
    if note > 127 || channel_index >= t.channels.len() {
        None
    } else {
        let c = t.channels[channel_index as int];
        match spec_lookup(bank, note as i32, velocity as i32, c.bank_number, c.patch_number) {
            None => None,
            Some(list) => {
                let ss = spec_make_samples(list, note, velocity, bank.wave@.len() as int);
                if ss.len() == 0 {
                    None
                } else {
                    Some(VoiceView { note, samples: ss })
                }
            },
        }
    }
}

/// A channel's voices with a new voice for its note: any voice already
/// sounding that note is replaced.
pub open spec fn spec_set_voice(vs: Seq<VoiceView>, v: VoiceView) -> Seq<VoiceView> {
    spec_remove_voice(vs, v.note).push(v)
}

/// What one compiled event does to the track: note-on inserts a voice,
/// note-off removes one, set-tempo re-derives the tick pace. An event on
/// a channel the track does not have does nothing.
pub open spec fn spec_interpret_event(
    t: TrackView,
    event: MidiEvent,
    bank: SoundFontBank,
) -> TrackView {
    match event {
        MidiEvent::NoteOn { channel, note, velocity } => {
            match spec_create_voice(t, channel, note, velocity, bank) {
                Some(v) => {
                    let c = t.channels[channel as int];
                    TrackView {
                        channels: t.channels.update(
                            channel as int,
                            ChannelView { voices: spec_set_voice(c.voices, v), ..c },
                        ),
                        ..t
                    }
                },
                None => t,
            }
        },
        MidiEvent::NoteOff { channel, note } => {
            if channel < t.channels.len() {
                let c = t.channels[channel as int];
                TrackView {
                    channels: t.channels.update(
                        channel as int,
                        ChannelView { voices: spec_remove_voice(c.voices, note), ..c },
                    ),
                    ..t
                }
            } else {
                t
            }
        },
        MidiEvent::SetTempo { beats_per_minute } => {
            let bps = beats_per_minute / 60;
            TrackView {
                beats_per_second: bps,
                ticks_per_sample: spec_ticks_per_sample(t.ticks_per_beat, bps, t.samples_per_second),
                ..t
            }
        },
    }
}

/// The track after dispatching every event whose time has come. On
/// exhausting the list the track wraps: the cursor, tick and beat reset
/// to zero and dispatch goes on from the start, at most one such wrap
/// per step.
pub open spec fn spec_run_events(t: TrackView, bank: SoundFontBank, wrapped: bool) -> TrackView
    decreases (if wrapped { 0int } else { 1int }), t.events.len() - t.event_index,
    via spec_run_events_decreases
{
    if t.event_index >= t.events.len() || t.events[t.event_index as int].time > spec_fp_floor(
        t.tick,
    ) {
        t
    } else {
        let t1 = spec_interpret_event(t, t.events[t.event_index as int].inner, bank);
        if t.event_index + 1 >= t.events.len() {
            let t2 = TrackView { event_index: 0, tick: 0, beat: 0, ..t1 };
            if wrapped {
                t2
            } else {
                spec_run_events(t2, bank, true)
            }
        } else {
            spec_run_events(TrackView { event_index: t.event_index + 1, ..t1 }, bank, wrapped)
        }
    }
}

#[via_fn]
proof fn spec_run_events_decreases(t: TrackView, bank: SoundFontBank, wrapped: bool) {
}

/// The queue after one boundary crossing: each event due at a crossed
/// boundary is applied in order (Play and Stop set the playing flag,
/// Queue spawns its inner event), a due event with Loop repeat stays
/// queued, other due events leave, and events not yet due stay put. The
/// result is the kept events, the spawned events (appended after them),
/// and the final playing flag.
pub open spec fn spec_apply_queue(
    q: Seq<MidiQueueEvent>,
    i: int,
    ts: MidiTimingSet,
    playing: bool,
) -> (Seq<MidiQueueEvent>, Seq<MidiQueueEvent>, bool)
    decreases q.len() - i,
{
    if i < 0 || i >= q.len() {
        (Seq::empty(), Seq::empty(), playing)
    } else {
        let e = q[i];
        if spec_timing_in(ts, e.timing) {
            let p1 = match e.event {
                MidiQueueEventType::Play => true,
                MidiQueueEventType::Stop => false,
                MidiQueueEventType::Queue(_) => playing,
            };
            let r = spec_apply_queue(q, i + 1, ts, p1);
            let keep = if e.looping == MidiQueueLooping::Loop {
                seq![e]
            } else {
                Seq::empty()
            };
            let spawn = match e.event {
                MidiQueueEventType::Queue(b) => seq![*b],
                _ => Seq::empty(),
            };
            (keep + r.0, spawn + r.1, r.2)
        } else {
            let r = spec_apply_queue(q, i + 1, ts, playing);
            (seq![e] + r.0, r.1, r.2)
        }
    }
}

/// Whether dispatching from this state wraps the track around the end of
/// its event list.
pub open spec fn spec_run_wraps(t: TrackView, bank: SoundFontBank, wrapped: bool) -> bool
    decreases (if wrapped { 0int } else { 1int }), t.events.len() - t.event_index,
    via spec_run_wraps_decreases
{
    if t.event_index >= t.events.len() || t.events[t.event_index as int].time > spec_fp_floor(
        t.tick,
    ) {
        false
    } else {
        let t1 = spec_interpret_event(t, t.events[t.event_index as int].inner, bank);
        if t.event_index + 1 >= t.events.len() {
            true
        } else {
            spec_run_wraps(TrackView { event_index: t.event_index + 1, ..t1 }, bank, wrapped)
        }
    }
}

#[via_fn]
proof fn spec_run_wraps_decreases(t: TrackView, bank: SoundFontBank, wrapped: bool) {
}

/// Dispatch leaves the beat accumulator exactly where it was, except
/// that a wrap resets it to zero.
pub proof fn lemma_run_events_beat(t: TrackView, bank: SoundFontBank, wrapped: bool)
    ensures
        spec_run_events(t, bank, wrapped).beat == (if spec_run_wraps(t, bank, wrapped) {
            0u64
        } else {
            t.beat
        }),
    decreases (if wrapped { 0int } else { 1int }), t.events.len() - t.event_index,
{
    if t.event_index >= t.events.len() || t.events[t.event_index as int].time > spec_fp_floor(
        t.tick,
    ) {
    } else {
        let t1 = spec_interpret_event(t, t.events[t.event_index as int].inner, bank);
        if t.event_index + 1 >= t.events.len() {
            let t2 = TrackView { event_index: 0, tick: 0, beat: 0, ..t1 };
            if !wrapped {
                lemma_run_events_beat(t2, bank, true);
                lemma_run_wraps_keeps_zero(t2, bank, true);
            }
        } else {
            lemma_run_events_beat(TrackView { event_index: t.event_index + 1, ..t1 }, bank, wrapped);
        }
    }
}

/// A helper for the above: dispatch started at a zero beat ends at a
/// zero beat, wrap or not.
pub proof fn lemma_run_wraps_keeps_zero(t: TrackView, bank: SoundFontBank, wrapped: bool)
    requires
        t.beat == 0,
    ensures
        spec_run_events(t, bank, wrapped).beat == 0,
    decreases (if wrapped { 0int } else { 1int }), t.events.len() - t.event_index,
{
    if t.event_index >= t.events.len() || t.events[t.event_index as int].time > spec_fp_floor(
        t.tick,
    ) {
    } else {
        let t1 = spec_interpret_event(t, t.events[t.event_index as int].inner, bank);
        if t.event_index + 1 >= t.events.len() {
            let t2 = TrackView { event_index: 0, tick: 0, beat: 0, ..t1 };
            if !wrapped {
                lemma_run_wraps_keeps_zero(t2, bank, true);
            }
        } else {
            lemma_run_wraps_keeps_zero(
                TrackView { event_index: t.event_index + 1, ..t1 },
                bank,
                wrapped,
            );
        }
    }
}

/// Dispatch never touches the queue or the playing flag: only queue
/// resolution does.
pub proof fn lemma_run_events_keeps_queue(t: TrackView, bank: SoundFontBank, wrapped: bool)
    ensures
        spec_run_events(t, bank, wrapped).queue == t.queue,
        spec_run_events(t, bank, wrapped).is_playing == t.is_playing,
    decreases (if wrapped { 0int } else { 1int }), t.events.len() - t.event_index,
{
    if t.event_index >= t.events.len() || t.events[t.event_index as int].time > spec_fp_floor(
        t.tick,
    ) {
    } else {
        let t1 = spec_interpret_event(t, t.events[t.event_index as int].inner, bank);
        if t.event_index + 1 >= t.events.len() {
            let t2 = TrackView { event_index: 0, tick: 0, beat: 0, ..t1 };
            if !wrapped {
                lemma_run_events_keeps_queue(t2, bank, true);
            }
        } else {
            lemma_run_events_keeps_queue(
                TrackView { event_index: t.event_index + 1, ..t1 },
                bank,
                wrapped,
            );
        }
    }
}

/// A Stop queued for the bar boundary leaves a playing track playing and
/// queued through every step that crosses no bar; the step that crosses
/// one silences the track and consumes the event.
pub proof fn lemma_queued_stop_waits_for_bar(e: MidiQueueEvent, ts: MidiTimingSet)
    requires
        e.event == MidiQueueEventType::Stop,
        e.timing == MidiQueueTiming::Bar,
        e.looping == MidiQueueLooping::Once,
    ensures
        !ts.bar ==> spec_apply_queue(seq![e], 0, ts, true) == (
            seq![e],
            Seq::<MidiQueueEvent>::empty(),
            true,
        ),
        ts.bar ==> spec_apply_queue(seq![e], 0, ts, true) == (
            Seq::<MidiQueueEvent>::empty(),
            Seq::<MidiQueueEvent>::empty(),
            false,
        ),
{
    let q = seq![e];
    if spec_timing_in(ts, e.timing) {
        assert(spec_apply_queue(q, 1, ts, false) == (
            Seq::<MidiQueueEvent>::empty(),
            Seq::<MidiQueueEvent>::empty(),
            false,
        ));
        assert(Seq::<MidiQueueEvent>::empty() + Seq::<MidiQueueEvent>::empty()
            =~= Seq::<MidiQueueEvent>::empty());
    } else {
        assert(spec_apply_queue(q, 1, ts, true) == (
            Seq::<MidiQueueEvent>::empty(),
            Seq::<MidiQueueEvent>::empty(),
            true,
        ));
        assert(seq![e] + Seq::<MidiQueueEvent>::empty() =~= seq![e]);
    }
}

/// A due event marked to loop is still queued after it fires, whatever
/// else the queue holds, so it fires again at the next occurrence of its
/// boundary.
pub proof fn lemma_loop_repeat_stays_queued(
    q: Seq<MidiQueueEvent>,
    j: int,
    i: int,
    ts: MidiTimingSet,
    playing: bool,
)
    requires
        0 <= j <= i < q.len(),
        q[i].looping == MidiQueueLooping::Loop,
        spec_timing_in(ts, q[i].timing),
    ensures
        spec_apply_queue(q, j, ts, playing).0.contains(q[i]),
    decreases i - j,
{
    let r = spec_apply_queue(q, j, ts, playing);
    if j == i {
        assert(r.0[0] == q[i]);
    } else {
        let e = q[j];
        if spec_timing_in(ts, e.timing) {
            let p1 = match e.event {
                MidiQueueEventType::Play => true,
                MidiQueueEventType::Stop => false,
                MidiQueueEventType::Queue(_) => playing,
            };
            lemma_loop_repeat_stays_queued(q, j + 1, i, ts, p1);
            let rest = spec_apply_queue(q, j + 1, ts, p1);
            let w = choose|w: int| 0 <= w < rest.0.len() && rest.0[w] == q[i];
            if e.looping == MidiQueueLooping::Loop {
                assert(r.0[1 + w] == q[i]);
            } else {
                assert(r.0[w] == q[i]);
            }
        } else {
            lemma_loop_repeat_stays_queued(q, j + 1, i, ts, playing);
            let rest = spec_apply_queue(q, j + 1, ts, playing);
            let w = choose|w: int| 0 <= w < rest.0.len() && rest.0[w] == q[i];
            assert(r.0[1 + w] == q[i]);
        }
    }
}

/// Removing a note's voice keeps every remaining voice well formed.
pub proof fn lemma_remove_voice_wf(vs: Seq<VoiceView>, note: u8, wave_len: int)
    requires
        forall|i: int| 0 <= i < vs.len() ==> spec_samples_wf((#[trigger] vs[i]).samples, wave_len),
    ensures
        forall|i: int|
            0 <= i < spec_remove_voice(vs, note).len() ==> spec_samples_wf(
                (#[trigger] spec_remove_voice(vs, note)[i]).samples,
                wave_len,
            ),
    decreases vs.len(),
{
    if vs.len() > 0 {
        lemma_remove_voice_wf(vs.drop_last(), note, wave_len);
        let r = spec_remove_voice(vs, note);
        let r0 = spec_remove_voice(vs.drop_last(), note);
        assert forall|i: int| 0 <= i < r.len() implies spec_samples_wf(
            (#[trigger] r[i]).samples,
            wave_len,
        ) by {
            if i < r0.len() {
                assert(r[i] == r0[i]);
            } else {
                assert(r[i] == vs.last());
            }
        }
    }
}

/// Keeps a channel's instrument selection and removes the voice sounding
/// the given note, if any.
fn remove_voice_in(c: &mut Channel, note: u8)
    ensures
        final(c)@ == (ChannelView { voices: spec_remove_voice(old(c)@.voices, note), ..old(c)@ }),
{
    let ghost orig = c.voices@.map_values(|v: Voice| v@);
    let mut kept: Vec<Voice> = Vec::new();
    let mut j: usize = 0;
    let n = c.voices.len();
    while j < n
        invariant
            n == c.voices@.len(),
            j <= n,
            orig == c.voices@.map_values(|v: Voice| v@),
            c.bank_number == old(c).bank_number,
            c.patch_number == old(c).patch_number,
            kept@.map_values(|v: Voice| v@) == spec_remove_voice(orig.take(j as int), note),
        decreases n - j,
    {
        let v = &c.voices[j];
        proof {
            assert(orig.take(j + 1).drop_last() =~= orig.take(j as int));
            assert(orig.take(j + 1).last() == orig[j as int]);
            assert(orig[j as int] == c.voices@[j as int]@);
        }
        if v.note != note {
            kept.push(Voice { note: v.note, samples: clone_samples(&v.samples) });
            proof {
                assert(kept@.map_values(|v: Voice| v@) =~= spec_remove_voice(
                    orig.take(j as int),
                    note,
                ) + seq![orig[j as int]]);
            }
        } else {
            proof {
                assert(spec_remove_voice(orig.take(j as int), note)
                    + Seq::<VoiceView>::empty() =~= spec_remove_voice(orig.take(j as int), note));
            }
        }
        j += 1;
    }
    proof {
        assert(orig.take(n as int) =~= orig);
    }
    c.voices = kept;
}

/// A copy of a voice's sample regions.
fn clone_samples(ss: &Vec<VoiceSample>) -> (r: Vec<VoiceSample>)
    ensures
        r@ == ss@,
{
    let mut r: Vec<VoiceSample> = Vec::new();
    let mut i: usize = 0;
    while i < ss.len()
        invariant
            i <= ss@.len(),
            r@ == ss@.take(i as int),
        decreases ss@.len() - i,
    {
        r.push(ss[i]);
        proof {
            assert(ss@.take(i + 1) =~= ss@.take(i as int).push(ss@[i as int]));
        }
        i += 1;
    }
    proof {
        assert(ss@.take(ss@.len() as int) =~= ss@);
    }
    r
}

impl MidiAudioTrack {
    /// The voice a note-on on the given channel should sound, if any:
    /// resolves the channel's bank and patch through the SoundFont bank
    /// and builds one voice sample per voicable region.
    pub fn create_voice(
        &self,
        channel_index: u8,
        note: u8,
        velocity: u8,
        soundfont: &SoundFontBank,
    ) -> (r: Option<Voice>)
        ensures
            match r {
                Some(v) => spec_create_voice(self@, channel_index, note, velocity, *soundfont)
                    == Some(v@) && spec_samples_wf(v.samples@, soundfont.wave@.len() as int),
                None => spec_create_voice(self@, channel_index, note, velocity, *soundfont)
                    is None,
            },
    {
        if note > 127 || channel_index as usize >= self.channels.len() {
            return None;
        }
        let c = &self.channels[channel_index as usize];
        proof {
            assert(self@.channels[channel_index as int] == self.channels@[channel_index as int]@);
        }
        let headers = match soundfont.get_sample_headers(
            note as i32,
            velocity as i32,
            c.bank_number,
            c.patch_number,
        ) {
            Some(h) => h,
            None => {
                return None;
            },
        };
        let wave_len = soundfont.wave.len();
        let mut samples: Vec<VoiceSample> = Vec::new();
        let mut j: usize = 0;
        while j < headers.len()
            invariant
                j <= headers@.len(),
                wave_len == soundfont.wave@.len(),
                note <= 127,
                samples@ == spec_make_samples(
                    headers@.take(j as int),
                    note,
                    velocity,
                    wave_len as int,
                ),
                forall|i: int|
                    0 <= i < samples@.len() ==> (#[trigger] samples@[i]).wf() && samples@[i].fits(
                        wave_len as int,
                    ),
            decreases headers@.len() - j,
        {
            let sd = headers[j];
            proof {
                assert(headers@.take(j + 1).drop_last() =~= headers@.take(j as int));
                assert(headers@.take(j + 1).last() == headers@[j as int]);
            }
            let valid = sd.start >= 0 && sd.end > sd.start && wave_len >= 1 && (sd.end as u64)
                <= (wave_len as u64) - 1 && sd.original_pitch >= 0 && sd.original_pitch <= 255
                && sd.pitch_correction >= -128 && sd.pitch_correction <= 127;
            if valid {
                match SampleType::from_code(sd.sample_type) {
                    Some(sample_type) => {
                        let speed = resample_speed(note, sd.original_pitch, sd.pitch_correction);
                        let volume = (velocity as u64) * FP_ONE / 127;
                        proof {
                            vstd::arithmetic::div_mod::lemma_div_is_ordered(
                                velocity as int * FP_ONE as int,
                                255 * FP_ONE as int,
                                127,
                            );
                        }
                        let vs = VoiceSample {
                            speed,
                            current_sample: (sd.start as u64) * FP_ONE,
                            end_sample: (sd.end as u64) * FP_ONE,
                            sample_type,
                            volume,
                        };
                        samples.push(vs);
                        proof {
                            assert(samples@ =~= spec_make_samples(
                                headers@.take(j as int),
                                note,
                                velocity,
                                wave_len as int,
                            ).push(spec_make_sample(headers@[j as int], note, velocity)));
                            assert(spec_make_samples(
                                headers@.take(j + 1),
                                note,
                                velocity,
                                wave_len as int,
                            ) =~= spec_make_samples(
                                headers@.take(j as int),
                                note,
                                velocity,
                                wave_len as int,
                            ).push(spec_make_sample(headers@[j as int], note, velocity)));
                        }
                    },
                    None => {
                        proof {
                            assert(samples@ + Seq::<VoiceSample>::empty() =~= samples@);
                        }
                    },
                }
            } else {
                proof {
                    assert(!spec_valid_sample(headers@[j as int], wave_len as int));
                    assert(samples@ + Seq::<VoiceSample>::empty() =~= samples@);
                }
            }
            j += 1;
        }
        proof {
            assert(headers@.take(headers@.len() as int) =~= headers@);
        }
        if samples.len() == 0 {
            None
        } else {
            Some(Voice { note, samples })
        }
    }

    /// Applies one compiled event to this track: note-on sounds a voice,
    /// note-off silences one, set-tempo changes the pace.
    pub fn interpret_event(&mut self, event: MidiEvent, soundfont: &SoundFontBank)
        requires
            old(self).wf(soundfont.wave@.len() as int),
        ensures
            final(self)@ == spec_interpret_event(old(self)@, event, *soundfont),
            final(self).wf(soundfont.wave@.len() as int),
    {
        match event {
            MidiEvent::NoteOn { channel, note, velocity } => {
                let vo = self.create_voice(channel, note, velocity, soundfont);
                if let Some(v) = vo {
                    let ghost pre = self@;
                    let mut c = self.channels.remove(channel as usize);
                    remove_voice_in(&mut c, note);
                    c.voices.push(v);
                    self.channels.insert(channel as usize, c);
                    proof {
                        lemma_remove_voice_wf(
                            pre.channels[channel as int].voices,
                            note,
                            soundfont.wave@.len() as int,
                        );
                        assert(self.channels@ =~= old(self).channels@.update(channel as int, c));
                        assert(self@.channels =~= pre.channels.update(channel as int, c@));
                        assert(c@.voices =~= spec_set_voice(
                            pre.channels[channel as int].voices,
                            v@,
                        ));
                        assert(self@ == spec_interpret_event(pre, event, *soundfont));
                    }
                }
            },
            MidiEvent::NoteOff { channel, note } => {
                if (channel as usize) < self.channels.len() {
                    let ghost pre = self@;
                    let mut c = self.channels.remove(channel as usize);
                    remove_voice_in(&mut c, note);
                    self.channels.insert(channel as usize, c);
                    proof {
                        lemma_remove_voice_wf(
                            pre.channels[channel as int].voices,
                            note,
                            soundfont.wave@.len() as int,
                        );
                        assert(self.channels@ =~= old(self).channels@.update(channel as int, c));
                        assert(self@.channels =~= pre.channels.update(channel as int, c@));
                        assert(self@ == spec_interpret_event(pre, event, *soundfont));
                    }
                }
            },
            MidiEvent::SetTempo { beats_per_minute } => {
                self.beats_per_second = beats_per_minute / 60;
                self.ticks_per_sample = mul_div_sat(
                    self.midi_track.ticks_per_beat as u64,
                    self.beats_per_second,
                    self.samples_per_second as u64,
                );
            },
        }
    }

    /// Dispatches every compiled event whose time has come, wrapping to
    /// the start of the event list (and resetting the tick and beat
    /// accumulators) when the list is exhausted.
    pub fn tick_midi(&mut self, soundfont: &SoundFontBank)
        requires
            old(self).wf(soundfont.wave@.len() as int),
        ensures
            final(self)@ == spec_run_events(old(self)@, *soundfont, false),
            final(self).wf(soundfont.wave@.len() as int),
    {
        let ghost bank = *soundfont;
        let mut wrapped: bool = false;
        loop
            invariant_except_break
                spec_run_events(old(self)@, bank, false) == spec_run_events(self@, bank, wrapped),
            invariant
                self.wf(soundfont.wave@.len() as int),
                bank == *soundfont,
            ensures
                self.wf(soundfont.wave@.len() as int),
                spec_run_events(old(self)@, bank, false) == self@,
            decreases (if wrapped { 0int } else { 1int }), self.midi_track.events@.len() - self.event_index,
        {
            let n = self.midi_track.events.len();
            if self.event_index >= n {
                break ;
            }
            let floor = crate::fixed::fp_floor(self.tick);
            let ev = self.midi_track.events[self.event_index];
            if ev.time > floor {
                break ;
            }
            let ghost pre = self@;
            let ghost wrapped0 = wrapped;
            self.interpret_event(ev.inner, soundfont);
            if self.event_index + 1 >= n {
                self.event_index = 0;
                self.tick = 0;
                self.beat = 0;
                proof {
                    assert(self@ == (TrackView {
                        event_index: 0,
                        tick: 0,
                        beat: 0,
                        ..spec_interpret_event(pre, ev.inner, bank)
                    }));
                    assert(spec_run_events(pre, bank, wrapped0) == (if wrapped0 {
                        self@
                    } else {
                        spec_run_events(self@, bank, true)
                    }));
                }
                if wrapped {
                    break ;
                }
                wrapped = true;
            } else {
                self.event_index = self.event_index + 1;
                proof {
                    assert(self@ == (TrackView {
                        event_index: self.event_index as int,
                        ..spec_interpret_event(pre, ev.inner, bank)
                    }));
                    assert(spec_run_events(pre, bank, wrapped0) == spec_run_events(
                        self@,
                        bank,
                        wrapped0,
                    ));
                }
            }
        }
    }

    /// Resolves the queued control events that were due at one of the
    /// crossed boundaries: Play and Stop flip the playing flag in queue
    /// order, Queue appends its inner event, a due event repeats only if
    /// marked to loop.
    pub fn resolve_queue(&mut self, timings: &MidiTimingSet)
        ensures
            ({
                let r = spec_apply_queue(old(self)@.queue, 0, *timings, old(self).is_playing);
                final(self)@ == (TrackView { queue: r.0 + r.1, is_playing: r.2, ..old(self)@ })
            }),
    {
        let ghost q0 = self.queue@;
        let ghost full = spec_apply_queue(q0, 0, *timings, self.is_playing);
        let mut kept: Vec<MidiQueueEvent> = Vec::new();
        let mut spawned: Vec<MidiQueueEvent> = Vec::new();
        let mut playing = self.is_playing;
        let mut i: usize = 0;
        let n = self.queue.len();
        while i < n
            invariant
                n == self.queue@.len(),
                q0 == self.queue@,
                i <= n,
                full == spec_apply_queue(q0, 0, *timings, old(self).is_playing),
                ({
                    let rest = spec_apply_queue(q0, i as int, *timings, playing);
                    full.0 == kept@ + rest.0 && full.1 == spawned@ + rest.1 && full.2 == rest.2
                }),
            decreases n - i,
        {
            let e = &self.queue[i];
            let ghost playing0 = playing;
            let ghost kept0 = kept@;
            let ghost spawned0 = spawned@;
            if timings.contains(e.timing) {
                match &e.event {
                    MidiQueueEventType::Play => {
                        playing = true;
                    },
                    MidiQueueEventType::Stop => {
                        playing = false;
                    },
                    MidiQueueEventType::Queue(b) => {
                        spawned.push((**b).clone());
                    },
                }
                if e.looping == MidiQueueLooping::Loop {
                    kept.push(e.clone());
                }
            } else {
                kept.push(e.clone());
            }
            proof {
                let rest0 = spec_apply_queue(q0, i as int, *timings, playing0);
                let rest1 = spec_apply_queue(q0, i + 1, *timings, playing);
                assert(kept0 + rest0.0 =~= kept@ + rest1.0);
                assert(spawned0 + rest0.1 =~= spawned@ + rest1.1);
            }
            i += 1;
        }
        self.queue = kept;
        self.queue.append(&mut spawned);
        self.is_playing = playing;
        proof {
            assert(self@ == (TrackView { queue: full.0 + full.1, is_playing: full.2, ..old(self)@
            }));
        }
    }
}

/// A voice one frame later: positions advanced, spent regions pruned.
pub open spec fn spec_advance_voice(v: VoiceView) -> VoiceView {
    VoiceView { note: v.note, samples: crate::voice::spec_tick_samples(v.samples) }
}

/// A channel's voices one frame later: every voice advances, and a voice
/// left with no live sample region is destroyed.
pub open spec fn spec_advance_voices_list(vs: Seq<VoiceView>) -> Seq<VoiceView>
    decreases vs.len(),
{
    if vs.len() == 0 {
        Seq::empty()
    } else {
        let a = spec_advance_voice(vs.last());
        spec_advance_voices_list(vs.drop_last()) + (if a.samples.len() > 0 {
            seq![a]
        } else {
            Seq::empty()
        })
    }
}

/// A channel one frame later.
pub open spec fn spec_advance_channel(c: ChannelView) -> ChannelView {
    ChannelView { voices: spec_advance_voices_list(c.voices), ..c }
}

/// A track one frame later: every voice of every channel advanced, and
/// exhausted voices destroyed.
pub open spec fn spec_advance_track(t: TrackView) -> TrackView {
    TrackView { channels: t.channels.map_values(|c: ChannelView| spec_advance_channel(c)), ..t }
}

/// Advancing a channel's voices keeps the survivors well formed against
/// the wave.
pub proof fn lemma_advance_voices_list_wf(vs: Seq<VoiceView>, wave_len: int)
    requires
        forall|i: int| 0 <= i < vs.len() ==> spec_samples_wf((#[trigger] vs[i]).samples, wave_len),
    ensures
        forall|i: int|
            0 <= i < spec_advance_voices_list(vs).len() ==> spec_samples_wf(
                (#[trigger] spec_advance_voices_list(vs)[i]).samples,
                wave_len,
            ),
    decreases vs.len(),
{
    if vs.len() > 0 {
        lemma_advance_voices_list_wf(vs.drop_last(), wave_len);
        crate::voice::lemma_tick_samples_wf(vs.last().samples, wave_len);
        let r = spec_advance_voices_list(vs);
        let r0 = spec_advance_voices_list(vs.drop_last());
        assert forall|i: int| 0 <= i < r.len() implies spec_samples_wf(
            (#[trigger] r[i]).samples,
            wave_len,
        ) by {
            if i < r0.len() {
                assert(r[i] == r0[i]);
            } else {
                assert(r[i] == spec_advance_voice(vs.last()));
            }
        }
    }
}

/// Advancing a channel keeps it well formed against the wave.
pub proof fn lemma_advance_channel_wf(c: ChannelView, wave_len: int)
    requires
        spec_channel_wf(c, wave_len),
    ensures
        spec_channel_wf(spec_advance_channel(c), wave_len),
{
    lemma_advance_voices_list_wf(c.voices, wave_len);
}

impl MidiAudioTrack {
    /// Advances every voice of every channel by one frame and prunes the
    /// sample regions that have passed their end bound.
    pub fn advance_voices(&mut self)
        requires
            forall|c: int, v: int|
                0 <= c < old(self)@.channels.len() && 0 <= v
                    < (#[trigger] old(self)@.channels[c]).voices.len() ==> (forall|j: int|
                    0 <= j < (#[trigger] old(self)@.channels[c].voices[v]).samples.len() ==> (
                    #[trigger] old(self)@.channels[c].voices[v].samples[j]).wf()),
        ensures
            final(self)@ == spec_advance_track(old(self)@),
    {
        let ghost pre = self@;
        let n = self.channels.len();
        let mut c: usize = 0;
        while c < n
            invariant
                n == self.channels@.len(),
                c <= n,
                self.midi_track == old(self).midi_track,
                self.ticks_per_sample == old(self).ticks_per_sample,
                self.samples_per_second == old(self).samples_per_second,
                self.beats_per_second == old(self).beats_per_second,
                self.tick == old(self).tick,
                self.beat == old(self).beat,
                self.event_index == old(self).event_index,
                self.beats_per_bar == old(self).beats_per_bar,
                self.queue == old(self).queue,
                self.is_playing == old(self).is_playing,
                pre == old(self)@,
                pre.channels.len() == n,
                forall|j: int|
                    c <= j < n ==> (#[trigger] self.channels@[j])@ == pre.channels[j],
                forall|j: int|
                    0 <= j < c ==> (#[trigger] self.channels@[j])@ == spec_advance_channel(
                        pre.channels[j],
                    ),
                forall|j: int, v: int|
                    0 <= j < n && 0 <= v < (#[trigger] pre.channels[j]).voices.len() ==> (forall|
                        i: int,
                    |
                        0 <= i < (#[trigger] pre.channels[j].voices[v]).samples.len() ==> (
                        #[trigger] pre.channels[j].voices[v].samples[i]).wf()),
            decreases n - c,
        {
            let ch = vstd::std_specs::vec::vec_index_mut(&mut self.channels, c);
            let ghost chpre = pre.channels[c as int];
            let ghost orig = chpre.voices;
            let m = ch.voices.len();
            let mut kept: Vec<Voice> = Vec::new();
            let mut k: usize = 0;
            while k < m
                invariant
                    m == orig.len(),
                    k <= m,
                    ch.bank_number == chpre.bank_number,
                    ch.patch_number == chpre.patch_number,
                    ch.voices@.len() == m - k,
                    forall|j: int|
                        0 <= j < m - k ==> (#[trigger] ch.voices@[j])@ == orig[k + j],
                    kept@.map_values(|v: Voice| v@) == spec_advance_voices_list(
                        orig.take(k as int),
                    ),
                    forall|v: int|
                        0 <= v < m ==> (forall|i: int|
                            0 <= i < (#[trigger] orig[v]).samples.len() ==> (
                            #[trigger] orig[v].samples[i]).wf()),
                decreases m - k,
            {
                let mut v = ch.voices.remove(0);
                proof {
                    assert(v@ == orig[k as int]);
                    assert forall|i: int| 0 <= i < v.samples@.len() implies (
                    #[trigger] v.samples@[i]).wf() by {
                        assert(orig[k as int].samples[i].wf());
                    }
                    assert(orig.take(k + 1).drop_last() =~= orig.take(k as int));
                    assert(orig.take(k + 1).last() == orig[k as int]);
                }
                v.tick();
                let ghost advanced = spec_advance_voice(orig[k as int]);
                if v.samples.len() > 0 {
                    kept.push(v);
                    proof {
                        assert(kept@.map_values(|v: Voice| v@) =~= spec_advance_voices_list(
                            orig.take(k as int),
                        ) + seq![advanced]);
                    }
                } else {
                    proof {
                        assert(spec_advance_voices_list(orig.take(k as int))
                            + Seq::<VoiceView>::empty() =~= spec_advance_voices_list(
                            orig.take(k as int),
                        ));
                    }
                }
                proof {
                    assert forall|j: int| 0 <= j < m - k - 1 implies (
                    #[trigger] ch.voices@[j])@ == orig[k + 1 + j] by {}
                }
                k += 1;
            }
            ch.voices = kept;
            proof {
                assert(orig.take(m as int) =~= orig);
                assert(ch@ == spec_advance_channel(chpre));
            }
            c += 1;
        }
        proof {
            assert(self@.channels =~= pre.channels.map_values(
                |cv: ChannelView| spec_advance_channel(cv),
            ));
        }
    }
}

} // verus!
