//! The mixer: a set of tracks over one SoundFont bank, the per-frame
//! render step, and the buffering bridge towards the audio consumer.
//!
//! Rendering is pull-driven and two-phased. On the first slot of a stereo
//! frame the simulation steps: every playing track advances its playhead
//! and the crossed boundaries are collected, every track resolves its due
//! queue events against them, and every playing track dispatches its due
//! MIDI events. Each slot then mixes every voice of every track whose
//! stereo affinity matches the slot, and the summed accumulator is
//! clamped to the signed 16-bit range. After the last slot of the frame
//! every voice advances by its resampling speed and spent regions are
//! pruned, so both slots of one frame read the same positions.
//!
//! The consumer side never blocks: pulling from an empty buffer yields
//! the silence value.

use crate::bank::SoundFontBank;
use crate::fixed::{sat_add_i128, spec_fp_floor, spec_sat_add, spec_sat_add_i128};
use crate::track::{
    lemma_advance_channel_wf, spec_advance_track, spec_apply_queue, spec_channel_wf,
    spec_run_events, MidiAudioTrack, MidiQueueEvent, MidiTimingSet, TrackView, VoiceView,
};
use crate::voice::{spec_samples_output, spec_samples_wf, Voice};
use std::collections::VecDeque;
use vstd::prelude::*;

verus! {

/// Names a track owned by a [`MidiAudio`].
#[derive(Clone, Copy, Debug, PartialEq, Eq, Hash, Structural)]
pub struct MidiAudioTrackHandle(pub usize);

/// The error of asking a mixer with no tracks for work.
#[derive(Debug, Default, Clone, Copy, PartialEq, Eq, Structural)]
pub struct NoTracksError;

/// A snapshot of a track's musical position, for displays synchronized
/// to the music: the beat position and the tempo, both Q32.32.
#[derive(Default, Clone, Copy, Debug, PartialEq, Eq, Structural)]
pub struct SyncedMidiInfo {
    pub beat: u64,
    pub beats_per_second: u64,
}

/// What travels through the shared sample buffer.
pub enum MidiBufferMessage {
    Audio(i16),
}

/// The mixer: the tracks and the bank they all voice through.
pub struct MidiAudio {
    pub tracks: Vec<MidiAudioTrack>,
    pub soundfont: SoundFontBank,
}

/// Clamping of the mixed accumulator to one 16-bit output sample.
pub open spec fn spec_clamp_i16(x: int) -> i16 {
    if x < -32768 {
        (-32768) as i16
    } else if x > 32767 {
        32767i16
    } else {
        x as i16
    }
}

/// The sum of a channel's voice outputs for a slot; the accumulator
/// saturates at the 128-bit bound, far beyond the final 16-bit clamp.
pub open spec fn spec_channel_output(c: Seq<VoiceView>, wave: Seq<i16>, slot: u16) -> int
    decreases c.len(),
{
    if c.len() == 0 {
        0
    } else {
        spec_sat_add_i128(
            spec_channel_output(c.drop_last(), wave, slot),
            spec_samples_output(c.last().samples, wave, slot),
        )
    }
}

/// The sum of a track's channel outputs for a slot.
pub open spec fn spec_track_output(t: TrackView, wave: Seq<i16>, slot: u16) -> int
    decreases t.channels.len(),
{
    if t.channels.len() == 0 {
        0
    } else {
        spec_sat_add_i128(
            spec_track_output(TrackView { channels: t.channels.drop_last(), ..t }, wave, slot),
            spec_channel_output(t.channels.last().voices, wave, slot),
        )
    }
}

/// The mixed output of all tracks for a slot, before the clamp. Every
/// track contributes, playing or not: voices of a stopped track play
/// out.
pub open spec fn spec_mix_output(ts: Seq<TrackView>, wave: Seq<i16>, slot: u16) -> int
    decreases ts.len(),
{
    if ts.len() == 0 {
        0
    } else {
        spec_sat_add_i128(
            spec_mix_output(ts.drop_last(), wave, slot),
            spec_track_output(ts.last(), wave, slot),
        )
    }
}

/// The views of a vector of tracks.
pub open spec fn spec_track_views(ts: Seq<MidiAudioTrack>) -> Seq<TrackView> {
    ts.map_values(|t: MidiAudioTrack| t@)
}

impl MidiAudio {
    /// Every track is well formed against the bank's wave.
    pub open spec fn wf(self) -> bool {
        forall|i: int|
            0 <= i < self.tracks@.len() ==> (#[trigger] self.tracks@[i]).wf(
                self.soundfont.wave@.len() as int,
            )
    }

    /// A mixer with no tracks over a SoundFont: the bank is built from it
    /// once, up front.
    pub fn new(soundfont: &rustysynth::SoundFont) -> (r: MidiAudio)
        ensures
            r.tracks@.len() == 0,
            crate::bank::spec_bank_matches(r.soundfont, *soundfont),
            r.wf(),
    {
        MidiAudio { tracks: Vec::new(), soundfont: SoundFontBank::new(soundfont) }
    }

    /// A mixer with no tracks over a SoundFont binary: success exactly
    /// when the bytes pass the structural pre-check and the parser
    /// accepts them, and the bank is then the faithful copy of the
    /// parsed SoundFont. A rejected binary yields an error.
    pub fn from_bytes(soundfont_bytes: &[u8]) -> (r: Result<
        MidiAudio,
        crate::bank::SoundFontLoadError,
    >)
        ensures
            r is Ok <==> crate::bank::spec_sf2_load_safe(soundfont_bytes@)
                && crate::bank::spec_sf2_accepted(soundfont_bytes@),
            r matches Ok(a) ==> {
                &&& a.tracks@.len() == 0
                &&& crate::bank::spec_bank_matches(
                    a.soundfont,
                    crate::bank::spec_sf2_parsed(soundfont_bytes@),
                )
                &&& a.wf()
            },
    {
        match SoundFontBank::from_bytes(soundfont_bytes) {
            Ok(bank) => Ok(MidiAudio { tracks: Vec::new(), soundfont: bank }),
            Err(e) => Err(e),
        }
    }

    /// Adds a track and hands back its handle.
    pub fn add_track(&mut self, midi_track: MidiAudioTrack) -> (r: MidiAudioTrackHandle)
        requires
            old(self).wf(),
            midi_track.wf(old(self).soundfont.wave@.len() as int),
        ensures
            r.0 == old(self).tracks@.len(),
            final(self).tracks@ == old(self).tracks@.push(midi_track),
            final(self).soundfont == old(self).soundfont,
            final(self).wf(),
    {
        let handle = MidiAudioTrackHandle(self.tracks.len());
        self.tracks.push(midi_track);
        handle
    }

    /// This mixer with one more track.
    pub fn with_track(self, midi_track: MidiAudioTrack) -> (r: MidiAudio)
        requires
            self.wf(),
            midi_track.wf(self.soundfont.wave@.len() as int),
        ensures
            r.tracks@ == self.tracks@.push(midi_track),
            r.soundfont == self.soundfont,
            r.wf(),
    {
        let mut r = self;
        r.tracks.push(midi_track);
        r
    }

    /// Queues a control event on the named track; a handle that names no
    /// track queues nothing.
    pub fn queue(&mut self, handle: MidiAudioTrackHandle, event: MidiQueueEvent)
        requires
            old(self).wf(),
        ensures
            final(self).soundfont == old(self).soundfont,
            final(self).wf(),
            handle.0 < old(self).tracks@.len() ==> final(self).tracks@ == old(
                self,
            ).tracks@.update(
                handle.0 as int,
                (MidiAudioTrack {
                    queue: final(self).tracks@[handle.0 as int].queue,
                    ..old(self).tracks@[handle.0 as int]
                }),
            ) && final(self).tracks@[handle.0 as int].queue@ == old(
                self,
            ).tracks@[handle.0 as int].queue@.push(event),
            handle.0 >= old(self).tracks@.len() ==> final(self).tracks@ == old(self).tracks@,
    {
        if handle.0 < self.tracks.len() {
            let t = vstd::std_specs::vec::vec_index_mut(&mut self.tracks, handle.0);
            t.queue.push(event);
            proof {
                assert forall|i: int| 0 <= i < self.tracks@.len() implies (
                #[trigger] self.tracks@[i]).wf(self.soundfont.wave@.len() as int) by {
                    if i != handle.0 {
                        assert(self.tracks@[i] == old(self).tracks@[i]);
                    } else {
                        assert(self.tracks@[i]@.channels == old(self).tracks@[i]@.channels);
                    }
                }
            }
        }
    }

    /// Whether the named track is currently playing; a handle that names
    /// no track is not playing.
    pub fn is_playing(&self, handle: &MidiAudioTrackHandle) -> (r: bool)
        ensures
            r == (handle.0 < self.tracks@.len() && self.tracks@[handle.0 as int].is_playing),
    {
        if handle.0 < self.tracks.len() {
            self.tracks[handle.0].is_playing
        } else {
            false
        }
    }

    /// The named track's tempo in Q32.32 beats per second, if the handle
    /// names one.
    pub fn beats_per_second(&self, handle: &MidiAudioTrackHandle) -> (r: Option<u64>)
        ensures
            r == (if handle.0 < self.tracks@.len() {
                Some(self.tracks@[handle.0 as int].beats_per_second)
            } else {
                None::<u64>
            }),
    {
        if handle.0 < self.tracks.len() {
            Some(self.tracks[handle.0].beats_per_second)
        } else {
            None
        }
    }

    /// The named track's beats per bar, if the handle names one.
    pub fn beats_per_bar(&self, handle: &MidiAudioTrackHandle) -> (r: Option<u32>)
        ensures
            r == (if handle.0 < self.tracks@.len() {
                Some(self.tracks@[handle.0 as int].beats_per_bar)
            } else {
                None::<u32>
            }),
    {
        if handle.0 < self.tracks.len() {
            Some(self.tracks[handle.0].beats_per_bar)
        } else {
            None
        }
    }

    /// A synchronized snapshot of the named track's position and tempo.
    pub fn synced_info(&self, handle: &MidiAudioTrackHandle) -> (r: Option<SyncedMidiInfo>)
        ensures
            r == (if handle.0 < self.tracks@.len() {
                Some(
                    SyncedMidiInfo {
                        beat: self.tracks@[handle.0 as int].beat,
                        beats_per_second: self.tracks@[handle.0 as int].beats_per_second,
                    },
                )
            } else {
                None::<SyncedMidiInfo>
            }),
    {
        if handle.0 < self.tracks.len() {
            let t = &self.tracks[handle.0];
            Some(SyncedMidiInfo { beat: t.beat, beats_per_second: t.beats_per_second })
        } else {
            None
        }
    }

    /// Sounds a note by hand on the named track's first channel, at full
    /// velocity, as a note-on event would. A handle that names no track
    /// sounds nothing.
    pub fn start_playing_note(&mut self, note: crate::notes::Note, handle: &MidiAudioTrackHandle)
        requires
            old(self).wf(),
            crate::notes::spec_in_midi_range(note),
        ensures
            final(self).soundfont == old(self).soundfont,
            final(self).wf(),
            handle.0 < old(self).tracks@.len() ==> final(self).tracks@ == old(
                self,
            ).tracks@.update(handle.0 as int, final(self).tracks@[handle.0 as int]),
            handle.0 < old(self).tracks@.len() ==> final(self).tracks@[handle.0 as int]@
                == crate::track::spec_interpret_event(
                old(self).tracks@[handle.0 as int]@,
                (crate::midi::MidiEvent::NoteOn {
                    channel: 0,
                    note: (crate::notes::spec_position(note) as u8),
                    velocity: 127,
                }),
                old(self).soundfont,
            ),
            handle.0 >= old(self).tracks@.len() ==> final(self).tracks@ == old(self).tracks@,
    {
        if handle.0 < self.tracks.len() {
            let position = note.position();
            let t = vstd::std_specs::vec::vec_index_mut(&mut self.tracks, handle.0);
            t.interpret_event(
                crate::midi::MidiEvent::NoteOn { channel: 0, note: position, velocity: 127 },
                &self.soundfont,
            );
        }
    }

    /// Silences the note on the named track's first channel, as a
    /// note-off event would. A handle that names no track silences
    /// nothing.
    pub fn stop_playing_note(&mut self, note: crate::notes::Note, handle: &MidiAudioTrackHandle)
        requires
            old(self).wf(),
            crate::notes::spec_in_midi_range(note),
        ensures
            final(self).soundfont == old(self).soundfont,
            final(self).wf(),
            handle.0 < old(self).tracks@.len() ==> final(self).tracks@ == old(
                self,
            ).tracks@.update(handle.0 as int, final(self).tracks@[handle.0 as int]),
            handle.0 < old(self).tracks@.len() ==> final(self).tracks@[handle.0 as int]@
                == crate::track::spec_interpret_event(
                old(self).tracks@[handle.0 as int]@,
                (crate::midi::MidiEvent::NoteOff {
                    channel: 0,
                    note: (crate::notes::spec_position(note) as u8),
                }),
                old(self).soundfont,
            ),
            handle.0 >= old(self).tracks@.len() ==> final(self).tracks@ == old(self).tracks@,
    {
        if handle.0 < self.tracks.len() {
            let position = note.position();
            let t = vstd::std_specs::vec::vec_index_mut(&mut self.tracks, handle.0);
            t.interpret_event(
                crate::midi::MidiEvent::NoteOff { channel: 0, note: position },
                &self.soundfont,
            );
        }
    }
}

/// The boundaries one frame crossing a playing track raises: the loop
/// boundary when the beat accumulator stands at zero, the beat boundary
/// when the whole beat count changes, the bar boundary when the whole bar
/// count changes too.
pub open spec fn spec_track_crossings(t: TrackView) -> MidiTimingSet {
    let db = t.beats_per_second as int / t.samples_per_second as int;
    let b2 = spec_sat_add(t.beat, db as u64);
    let last_beat = spec_fp_floor(t.beat);
    let cur_beat = spec_fp_floor(b2);
    let crossed_beat = last_beat != cur_beat;
    MidiTimingSet {
        looped: t.beat == 0,
        beat: crossed_beat,
        bar: crossed_beat && last_beat / t.beats_per_bar as int != cur_beat
            / t.beats_per_bar as int,
    }
}

/// A track's playhead one frame later.
pub open spec fn spec_advance_timing(t: TrackView) -> TrackView {
    let db = t.beats_per_second as int / t.samples_per_second as int;
    TrackView {
        tick: spec_sat_add(t.tick, t.ticks_per_sample),
        beat: spec_sat_add(t.beat, db as u64),
        ..t
    }
}

/// The boundaries any playing track crosses this frame, collected.
pub open spec fn spec_frame_timings(ts: Seq<TrackView>) -> MidiTimingSet
    decreases ts.len(),
{
    if ts.len() == 0 {
        MidiTimingSet { looped: false, bar: false, beat: false }
    } else {
        let rest = spec_frame_timings(ts.drop_last());
        if ts.last().is_playing {
            let c = spec_track_crossings(ts.last());
            MidiTimingSet {
                looped: rest.looped || c.looped,
                bar: rest.bar || c.bar,
                beat: rest.beat || c.beat,
            }
        } else {
            rest
        }
    }
}

/// Phase one of a frame: every playing track's playhead advances.
pub open spec fn spec_timing_phase(ts: Seq<TrackView>) -> Seq<TrackView> {
    ts.map_values(
        |t: TrackView|
            if t.is_playing {
                spec_advance_timing(t)
            } else {
                t
            },
    )
}

/// Phase two of a frame: every track resolves its due queue events.
pub open spec fn spec_queue_phase(ts: Seq<TrackView>, timings: MidiTimingSet) -> Seq<TrackView> {
    ts.map_values(
        |t: TrackView|
            {
                let r = spec_apply_queue(t.queue, 0, timings, t.is_playing);
                TrackView { queue: r.0 + r.1, is_playing: r.2, ..t }
            },
    )
}

/// Phase three of a frame: every track now playing dispatches its due
/// MIDI events.
pub open spec fn spec_midi_phase(ts: Seq<TrackView>, bank: SoundFontBank) -> Seq<TrackView> {
    ts.map_values(
        |t: TrackView|
            if t.is_playing {
                spec_run_events(t, bank, false)
            } else {
                t
            },
    )
}

/// One whole simulation step: playheads advance and raise boundaries,
/// queues resolve against them, and MIDI events dispatch.
pub open spec fn spec_step_tracks(ts: Seq<TrackView>, bank: SoundFontBank) -> Seq<TrackView> {
    spec_midi_phase(spec_queue_phase(spec_timing_phase(ts), spec_frame_timings(ts)), bank)
}

/// Every voice of every track one frame later.
pub open spec fn spec_advance_tracks(ts: Seq<TrackView>) -> Seq<TrackView> {
    ts.map_values(|t: TrackView| spec_advance_track(t))
}

/// Clamps the mixed accumulator to one output sample.
fn clamp_i16(x: i128) -> (r: i16)
    ensures
        r == spec_clamp_i16(x as int),
{
    if x < -32768 {
        -32768
    } else if x > 32767 {
        32767
    } else {
        x as i16
    }
}

/// The summed output of a channel's voices for a slot.
fn channel_mix(voices: &Vec<Voice>, wave: &[i16], slot: u16) -> (r: i128)
    requires
        forall|v: int|
            0 <= v < voices@.len() ==> spec_samples_wf(
                (#[trigger] voices@[v])@.samples,
                wave@.len() as int,
            ),
    ensures
        r == spec_channel_output(voices@.map_values(|v: Voice| v@), wave@, slot),
{
    let ghost m = voices@.map_values(|v: Voice| v@);
    let mut total: i128 = 0;
    let mut j: usize = 0;
    let n = voices.len();
    while j < n
        invariant
            n == voices@.len(),
            j <= n,
            m == voices@.map_values(|v: Voice| v@),
            forall|v: int|
                0 <= v < n ==> spec_samples_wf((#[trigger] voices@[v])@.samples, wave@.len() as int),
            total == spec_channel_output(m.take(j as int), wave@, slot),
        decreases n - j,
    {
        let s = voices[j].sample(wave, slot);
        proof {
            assert(m.take(j + 1).drop_last() =~= m.take(j as int));
            assert(m.take(j + 1).last() == m[j as int]);
        }
        total = sat_add_i128(total, s);
        j += 1;
    }
    proof {
        assert(m.take(n as int) =~= m);
    }
    total
}

/// The summed output of a track's channels for a slot.
fn track_mix(t: &MidiAudioTrack, wave: &[i16], slot: u16) -> (r: i128)
    requires
        forall|c: int|
            0 <= c < t@.channels.len() ==> spec_channel_wf(
                #[trigger] t@.channels[c],
                wave@.len() as int,
            ),
    ensures
        r == spec_track_output(t@, wave@, slot),
{
    let mut total: i128 = 0;
    let mut c: usize = 0;
    let n = t.channels.len();
    while c < n
        invariant
            n == t.channels@.len(),
            c <= n,
            forall|k: int|
                0 <= k < t@.channels.len() ==> spec_channel_wf(
                    #[trigger] t@.channels[k],
                    wave@.len() as int,
                ),
            total == spec_track_output(
                (TrackView { channels: t@.channels.take(c as int), ..t@ }),
                wave@,
                slot,
            ),
        decreases n - c,
    {
        proof {
            assert(t@.channels[c as int] == t.channels@[c as int]@);
            assert forall|v: int|
                0 <= v < t.channels@[c as int].voices@.len() implies spec_samples_wf(
                (#[trigger] t.channels@[c as int].voices@[v])@.samples,
                wave@.len() as int,
            ) by {
                assert(t@.channels[c as int].voices[v] == t.channels@[c as int].voices@[v]@);
            }
        }
        let s = channel_mix(&t.channels[c].voices, wave, slot);
        proof {
            assert(t@.channels.take(c + 1).drop_last() =~= t@.channels.take(c as int));
            assert(t@.channels.take(c + 1).last() == t@.channels[c as int]);
            assert(t.channels@[c as int]@.voices == t.channels@[c as int].voices@.map_values(
                |v: Voice| v@,
            ));
        }
        total = sat_add_i128(total, s);
        c += 1;
    }
    proof {
        assert(t@.channels.take(n as int) =~= t@.channels);
        assert((TrackView { channels: t@.channels, ..t@ }) == t@);
    }
    total
}

/// The mixed output of every track for a slot, before the clamp.
fn mix_all(tracks: &Vec<MidiAudioTrack>, wave: &[i16], slot: u16) -> (r: i128)
    requires
        forall|i: int|
            0 <= i < tracks@.len() ==> (#[trigger] tracks@[i]).wf(wave@.len() as int),
    ensures
        r == spec_mix_output(spec_track_views(tracks@), wave@, slot),
{
    let ghost m = spec_track_views(tracks@);
    let mut total: i128 = 0;
    let mut i: usize = 0;
    let n = tracks.len();
    while i < n
        invariant
            n == tracks@.len(),
            i <= n,
            m == spec_track_views(tracks@),
            forall|k: int|
                0 <= k < tracks@.len() ==> (#[trigger] tracks@[k]).wf(wave@.len() as int),
            total == spec_mix_output(m.take(i as int), wave@, slot),
        decreases n - i,
    {
        let s = track_mix(&tracks[i], wave, slot);
        proof {
            assert(m.take(i + 1).drop_last() =~= m.take(i as int));
            assert(m.take(i + 1).last() == m[i as int]);
        }
        total = sat_add_i128(total, s);
        i += 1;
    }
    proof {
        assert(m.take(n as int) =~= m);
    }
    total
}

/// The per-frame renderer: which slot of the stereo frame comes next.
pub struct MidiRenderer {
    pub num_audio_channels: u16,
    pub current_audio_channel: u16,
}

impl MidiRenderer {
    /// A stereo renderer at the first slot.
    pub fn new() -> (r: MidiRenderer)
        ensures
            r.num_audio_channels == 2,
            r.current_audio_channel == 0,
    {
        MidiRenderer { num_audio_channels: 2, current_audio_channel: 0 }
    }

    /// Renders one output sample for the given slot of a stereo frame.
    /// On slot 0 the simulation steps first and the new state is mixed;
    /// on slot 1 the same state is mixed for the right channel and only
    /// then every voice advances, so both slots of a frame read the same
    /// voice positions. The mixed accumulator is clamped to the 16-bit
    /// range, never wrapped.
    pub fn tick(audio: &mut MidiAudio, current_audio_channel: u16) -> (r: i16)
        requires
            old(audio).wf(),
            current_audio_channel < 2,
        ensures
            final(audio).soundfont == old(audio).soundfont,
            final(audio).wf(),
            current_audio_channel == 0 ==> spec_track_views(final(audio).tracks@)
                == spec_step_tracks(
                spec_track_views(old(audio).tracks@),
                old(audio).soundfont,
            ) && r == spec_clamp_i16(
                spec_mix_output(
                    spec_track_views(final(audio).tracks@),
                    old(audio).soundfont.wave@,
                    0,
                ),
            ),
            current_audio_channel != 0 ==> spec_track_views(final(audio).tracks@)
                == spec_advance_tracks(spec_track_views(old(audio).tracks@)) && r
                == spec_clamp_i16(
                spec_mix_output(
                    spec_track_views(old(audio).tracks@),
                    old(audio).soundfont.wave@,
                    1,
                ),
            ),
    {
        let ghost wave_len = audio.soundfont.wave@.len() as int;
        let n = audio.tracks.len();
        if current_audio_channel == 0 {
            let ghost views0 = spec_track_views(audio.tracks@);
            let mut timings = MidiTimingSet::new();
            let mut i: usize = 0;
            while i < n
                invariant
                    n == audio.tracks@.len(),
                    i <= n,
                    audio.soundfont == old(audio).soundfont,
                    wave_len == audio.soundfont.wave@.len() as int,
                    views0.len() == n,
                    timings == spec_frame_timings(views0.take(i as int)),
                    forall|j: int|
                        i <= j < n ==> (#[trigger] audio.tracks@[j])@ == views0[j],
                    forall|j: int|
                        0 <= j < i ==> (#[trigger] audio.tracks@[j])@ == (if views0[j].is_playing {
                            spec_advance_timing(views0[j])
                        } else {
                            views0[j]
                        }),
                    forall|j: int|
                        0 <= j < n ==> (#[trigger] audio.tracks@[j]).wf(wave_len),
                decreases n - i,
            {
                proof {
                    assert(views0.take(i + 1).drop_last() =~= views0.take(i as int));
                    assert(views0.take(i + 1).last() == views0[i as int]);
                }
                if audio.tracks[i].is_playing {
                    let t = vstd::std_specs::vec::vec_index_mut(&mut audio.tracks, i);
                    t.tick_timing(&mut timings);
                    proof {
                        assert(audio.tracks@[i as int]@ == spec_advance_timing(views0[i as int]));
                        assert(audio.tracks@[i as int]@.channels == views0[i as int].channels);
                    }
                }
                i += 1;
            }
            proof {
                assert(views0.take(n as int) =~= views0);
            }
            let ghost views1 = spec_timing_phase(views0);
            proof {
                assert forall|j: int| 0 <= j < n implies (#[trigger] audio.tracks@[j])@
                    == views1[j] by {}
            }
            let mut i: usize = 0;
            while i < n
                invariant
                    n == audio.tracks@.len(),
                    i <= n,
                    audio.soundfont == old(audio).soundfont,
                    wave_len == audio.soundfont.wave@.len() as int,
                    views1.len() == n,
                    timings == spec_frame_timings(views0),
                    views1 == spec_timing_phase(views0),
                    forall|j: int|
                        i <= j < n ==> (#[trigger] audio.tracks@[j])@ == views1[j],
                    forall|j: int|
                        0 <= j < i ==> (#[trigger] audio.tracks@[j])@ == ({
                            let r = spec_apply_queue(
                                views1[j].queue,
                                0,
                                timings,
                                views1[j].is_playing,
                            );
                            TrackView { queue: r.0 + r.1, is_playing: r.2, ..views1[j] }
                        }),
                    forall|j: int|
                        0 <= j < n ==> (#[trigger] audio.tracks@[j]).wf(wave_len),
                decreases n - i,
            {
                let t = vstd::std_specs::vec::vec_index_mut(&mut audio.tracks, i);
                t.resolve_queue(&timings);
                proof {
                    assert(audio.tracks@[i as int]@.channels == views1[i as int].channels);
                }
                i += 1;
            }
            let ghost views2 = spec_queue_phase(views1, timings);
            proof {
                assert forall|j: int| 0 <= j < n implies (#[trigger] audio.tracks@[j])@
                    == views2[j] by {}
            }
            let mut i: usize = 0;
            while i < n
                invariant
                    n == audio.tracks@.len(),
                    i <= n,
                    audio.soundfont == old(audio).soundfont,
                    wave_len == audio.soundfont.wave@.len() as int,
                    views2.len() == n,
                    views2 == spec_queue_phase(views1, timings),
                    forall|j: int|
                        i <= j < n ==> (#[trigger] audio.tracks@[j])@ == views2[j],
                    forall|j: int|
                        0 <= j < i ==> (#[trigger] audio.tracks@[j])@ == (if views2[j].is_playing {
                            spec_run_events(views2[j], audio.soundfont, false)
                        } else {
                            views2[j]
                        }),
                    forall|j: int|
                        0 <= j < n ==> (#[trigger] audio.tracks@[j]).wf(wave_len),
                decreases n - i,
            {
                if audio.tracks[i].is_playing {
                    let t = vstd::std_specs::vec::vec_index_mut(&mut audio.tracks, i);
                    t.tick_midi(&audio.soundfont);
                }
                i += 1;
            }
            proof {
                assert(spec_track_views(audio.tracks@) =~= spec_midi_phase(
                    views2,
                    audio.soundfont,
                ));
            }
            let total = mix_all(&audio.tracks, audio.soundfont.wave.as_slice(), 0);
            clamp_i16(total)
        } else {
            let total = mix_all(&audio.tracks, audio.soundfont.wave.as_slice(), 1);
            let ghost views0 = spec_track_views(audio.tracks@);
            let mut i: usize = 0;
            while i < n
                invariant
                    n == audio.tracks@.len(),
                    i <= n,
                    audio.soundfont == old(audio).soundfont,
                    wave_len == audio.soundfont.wave@.len() as int,
                    views0.len() == n,
                    forall|j: int|
                        i <= j < n ==> (#[trigger] audio.tracks@[j])@ == views0[j],
                    forall|j: int|
                        0 <= j < i ==> (#[trigger] audio.tracks@[j])@ == spec_advance_track(
                            views0[j],
                        ),
                    forall|j: int|
                        0 <= j < n ==> (#[trigger] audio.tracks@[j]).wf(wave_len),
                decreases n - i,
            {
                let ghost tv = audio.tracks@[i as int]@;
                let t = vstd::std_specs::vec::vec_index_mut(&mut audio.tracks, i);
                proof {
                    assert forall|c: int, v: int|
                        0 <= c < t@.channels.len() && 0 <= v < (
                        #[trigger] t@.channels[c]).voices.len() implies (forall|s: int|
                        0 <= s < (#[trigger] t@.channels[c].voices[v]).samples.len() ==> (
                        #[trigger] t@.channels[c].voices[v].samples[s]).wf()) by {
                        assert(spec_channel_wf(t@.channels[c], wave_len));
                        assert forall|s: int|
                            0 <= s < t@.channels[c].voices[v].samples.len() implies (
                            #[trigger] t@.channels[c].voices[v].samples[s]).wf() by {
                            assert(spec_samples_wf(t@.channels[c].voices[v].samples, wave_len));
                        }
                    }
                }
                t.advance_voices();
                proof {
                    let t2 = audio.tracks@[i as int]@;
                    assert(t2 == spec_advance_track(tv));
                    assert forall|c: int| 0 <= c < 16 implies spec_channel_wf(
                        #[trigger] t2.channels[c],
                        wave_len,
                    ) by {
                        assert(t2.channels[c] == crate::track::spec_advance_channel(
                            tv.channels[c],
                        ));
                        lemma_advance_channel_wf(tv.channels[c], wave_len);
                    }
                    let tr = audio.tracks@[i as int];
                    assert(tr@ == t2);
                    assert(tr.channels@.len() == t2.channels.len());
                    assert(tr.samples_per_second == t2.samples_per_second);
                    assert(tr.beats_per_bar == t2.beats_per_bar);
                    assert(tr.event_index as int == t2.event_index);
                    assert(tr.midi_track.events@.len() == t2.events.len());
                    assert(tv.events.len() == audio.tracks@[i as int].midi_track.events@.len());
                    assert(audio.tracks@[i as int].wf(wave_len));
                }
                i += 1;
            }
            proof {
                assert(spec_track_views(audio.tracks@) =~= spec_advance_tracks(views0));
            }
            clamp_i16(total)
        }
    }
}

/// The loop boundary is raised exactly once per pass through a track's
/// event list. A frame raises it iff the frame before left the beat
/// accumulator at zero; advancing the playhead of a track whose tempo
/// moves the beat leaves it nonzero, and only the dispatch step's wrap
/// around the end of the event list resets it. So the signal comes at
/// the start of the first pass and then exactly at the frame after each
/// wrap.
pub proof fn lemma_loop_signal_once_per_pass(
    t: TrackView,
    bank: SoundFontBank,
    timings: MidiTimingSet,
)
    requires
        t.samples_per_second >= 1,
        t.beats_per_second as int / t.samples_per_second as int >= 1,
    ensures
        spec_track_crossings(t).looped <==> t.beat == 0,
        ({
            let t1 = spec_advance_timing(t);
            let r = spec_apply_queue(t1.queue, 0, timings, t1.is_playing);
            let t2 = TrackView { queue: r.0 + r.1, is_playing: r.2, ..t1 };
            let t3 = crate::track::spec_run_events(t2, bank, false);
            &&& t1.beat != 0
            &&& (t3.beat == 0 <==> crate::track::spec_run_wraps(t2, bank, false))
            &&& (spec_track_crossings(t3).looped <==> crate::track::spec_run_wraps(
                t2,
                bank,
                false,
            ))
        }),
{
    let t1 = spec_advance_timing(t);
    let r = spec_apply_queue(t1.queue, 0, timings, t1.is_playing);
    let t2 = TrackView { queue: r.0 + r.1, is_playing: r.2, ..t1 };
    let db = t.beats_per_second as int / t.samples_per_second as int;
    assert(db <= t.beats_per_second) by (nonlinear_arith)
        requires
            t.samples_per_second >= 1,
            db == t.beats_per_second as int / t.samples_per_second as int,
    ;
    assert(db as u64 >= 1);
    assert(t1.beat == spec_sat_add(t.beat, db as u64));
    assert(t1.beat != 0);
    assert(t2.beat == t1.beat);
    crate::track::lemma_run_events_beat(t2, bank, false);
}

/// A Stop queued for the bar boundary, seen at the mixer's own step:
/// whatever else the mixer holds, a frame that crosses no bar leaves the
/// track playing with the event still pending, and the first frame that
/// crosses one silences the track and consumes the event.
pub proof fn lemma_stop_at_bar_step(
    ts: Seq<TrackView>,
    bank: SoundFontBank,
    i: int,
    e: MidiQueueEvent,
)
    requires
        0 <= i < ts.len(),
        ts[i].is_playing,
        ts[i].queue == seq![e],
        e.event == crate::track::MidiQueueEventType::Stop,
        e.timing == crate::track::MidiQueueTiming::Bar,
        e.looping == crate::track::MidiQueueLooping::Once,
    ensures
        ({
            let stepped = spec_step_tracks(ts, bank);
            let crossed = spec_frame_timings(ts).bar;
            &&& !crossed ==> stepped[i].is_playing && stepped[i].queue == seq![e]
            &&& crossed ==> !stepped[i].is_playing && stepped[i].queue == Seq::<
                MidiQueueEvent,
            >::empty()
        }),
{
    let timings = spec_frame_timings(ts);
    let ts1 = spec_timing_phase(ts);
    let t1 = ts1[i];
    assert(t1 == spec_advance_timing(ts[i]));
    let r = spec_apply_queue(t1.queue, 0, timings, t1.is_playing);
    let ts2 = spec_queue_phase(ts1, timings);
    let t2 = ts2[i];
    assert(t2 == (TrackView { queue: r.0 + r.1, is_playing: r.2, ..t1 }));
    crate::track::lemma_queued_stop_waits_for_bar(e, timings);
    let ts3 = spec_midi_phase(ts2, bank);
    assert(spec_step_tracks(ts, bank) == ts3);
    if timings.bar {
        assert(Seq::<MidiQueueEvent>::empty() + Seq::<MidiQueueEvent>::empty() =~= Seq::<
            MidiQueueEvent,
        >::empty());
        assert(ts3[i] == t2);
    } else {
        assert(seq![e] + Seq::<MidiQueueEvent>::empty() =~= seq![e]);
        crate::track::lemma_run_events_keeps_queue(t2, bank, false);
        assert(ts3[i] == crate::track::spec_run_events(t2, bank, false));
    }
}

/// The loop signal at the mixer's own step: a playing track whose tempo
/// moves the beat raises the signal on this frame iff its beat
/// accumulator stands at zero, and leaves it at zero for the next frame
/// iff its dispatch wrapped around the end of the event list — once per
/// pass.
pub proof fn lemma_loop_signal_step(ts: Seq<TrackView>, bank: SoundFontBank, i: int)
    requires
        0 <= i < ts.len(),
        ts[i].is_playing,
        ts[i].samples_per_second >= 1,
        ts[i].beats_per_second as int / ts[i].samples_per_second as int >= 1,
    ensures
        spec_track_crossings(ts[i]).looped <==> ts[i].beat == 0,
        ({
            let stepped = spec_step_tracks(ts, bank);
            let t1 = spec_advance_timing(ts[i]);
            let r = spec_apply_queue(t1.queue, 0, spec_frame_timings(ts), t1.is_playing);
            let t2 = TrackView { queue: r.0 + r.1, is_playing: r.2, ..t1 };
            &&& r.2 ==> (stepped[i].beat == 0 <==> crate::track::spec_run_wraps(t2, bank, false))
            &&& !r.2 ==> stepped[i].beat != 0
        }),
{
    let timings = spec_frame_timings(ts);
    lemma_loop_signal_once_per_pass(ts[i], bank, timings);
    let ts1 = spec_timing_phase(ts);
    let t1 = ts1[i];
    assert(t1 == spec_advance_timing(ts[i]));
    let r = spec_apply_queue(t1.queue, 0, timings, t1.is_playing);
    let ts2 = spec_queue_phase(ts1, timings);
    let t2 = ts2[i];
    assert(t2 == (TrackView { queue: r.0 + r.1, is_playing: r.2, ..t1 }));
    let ts3 = spec_midi_phase(ts2, bank);
    assert(spec_step_tracks(ts, bank) == ts3);
    if r.2 {
        assert(ts3[i] == spec_run_events(t2, bank, false));
    } else {
        assert(ts3[i] == t2);
        assert(t2.beat == t1.beat);
    }
}

/// One render step at a slot: the sample emitted and the tracks after
/// it.
pub open spec fn spec_tick_result(ts: Seq<TrackView>, bank: SoundFontBank, slot: u16) -> (
    i16,
    Seq<TrackView>,
) {
    if slot == 0 {
        let ts2 = spec_step_tracks(ts, bank);
        (spec_clamp_i16(spec_mix_output(ts2, bank.wave@, 0)), ts2)
    } else {
        (spec_clamp_i16(spec_mix_output(ts, bank.wave@, 1)), spec_advance_tracks(ts))
    }
}

/// A run of `n` render steps from a slot: the samples emitted in order,
/// the tracks after them, and the slot that comes next.
pub open spec fn spec_render(ts: Seq<TrackView>, bank: SoundFontBank, slot: u16, n: nat) -> (
    Seq<i16>,
    Seq<TrackView>,
    u16,
)
    decreases n,
{
    if n == 0 {
        (Seq::empty(), ts, slot)
    } else {
        let step = spec_tick_result(ts, bank, slot);
        let slot1: u16 = if slot == 0 {
            1
        } else {
            0
        };
        let r = spec_render(step.1, bank, slot1, (n - 1) as nat);
        (seq![step.0] + r.0, r.1, r.2)
    }
}

impl MidiRenderer {
    /// Renders a batch of samples into the shared buffer, alternating
    /// stereo slots. This is the producer side of the bridge: the
    /// consumer pulls from the buffer and the caller bounds the batch, so
    /// the buffer never outgrows what was asked for.
    pub fn render(&mut self, audio: &mut MidiAudio, buffer: &mut VecDeque<i16>, samples: usize)
        requires
            old(audio).wf(),
            old(self).num_audio_channels == 2,
            old(self).current_audio_channel < 2,
        ensures
            final(audio).wf(),
            final(audio).soundfont == old(audio).soundfont,
            final(self).num_audio_channels == 2,
            final(self).current_audio_channel < 2,
            ({
                let r = spec_render(
                    spec_track_views(old(audio).tracks@),
                    old(audio).soundfont,
                    old(self).current_audio_channel,
                    samples as nat,
                );
                &&& final(buffer)@ == old(buffer)@ + r.0
                &&& spec_track_views(final(audio).tracks@) == r.1
                &&& final(self).current_audio_channel == r.2
            }),
    {
        let ghost bank = audio.soundfont;
        let ghost full = spec_render(
            spec_track_views(audio.tracks@),
            bank,
            self.current_audio_channel,
            samples as nat,
        );
        let mut k: usize = 0;
        while k < samples
            invariant
                k <= samples,
                audio.wf(),
                audio.soundfont == old(audio).soundfont,
                bank == old(audio).soundfont,
                self.num_audio_channels == 2,
                self.current_audio_channel < 2,
                full == spec_render(
                    spec_track_views(old(audio).tracks@),
                    bank,
                    old(self).current_audio_channel,
                    samples as nat,
                ),
                ({
                    let rem = spec_render(
                        spec_track_views(audio.tracks@),
                        bank,
                        self.current_audio_channel,
                        (samples - k) as nat,
                    );
                    &&& buffer@ + rem.0 == old(buffer)@ + full.0
                    &&& rem.1 == full.1
                    &&& rem.2 == full.2
                }),
            decreases samples - k,
        {
            let ghost views_pre = spec_track_views(audio.tracks@);
            let ghost slot_pre = self.current_audio_channel;
            let s = MidiRenderer::tick(audio, self.current_audio_channel);
            buffer.push_back(s);
            self.current_audio_channel = (self.current_audio_channel + 1)
                % self.num_audio_channels;
            proof {
                let rem_pre = spec_render(views_pre, bank, slot_pre, (samples - k) as nat);
                let rem_post = spec_render(
                    spec_track_views(audio.tracks@),
                    bank,
                    self.current_audio_channel,
                    (samples - k - 1) as nat,
                );
                assert(rem_pre.0 == seq![s] + rem_post.0);
                assert(buffer@ + rem_post.0 =~= old(buffer)@ + full.0);
            }
            k += 1;
        }
    }
}

/// Pulls one sample for the consumer: the front of the buffer, or the
/// silence value if the buffer is empty. Never blocks, never fails.
pub fn pull_sample(buffer: &mut VecDeque<i16>) -> (r: i16)
    ensures
        old(buffer)@.len() == 0 ==> r == 0 && final(buffer)@ == old(buffer)@,
        old(buffer)@.len() > 0 ==> r == old(buffer)@[0] && final(buffer)@ == old(
            buffer,
        )@.drop_first(),
{
    match buffer.pop_front() {
        Some(s) => s,
        None => 0,
    }
}

} // verus!
