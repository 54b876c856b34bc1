//! The quantized queue state machine and the loop boundary signal.

use soundyrust::audio::{MidiAudio, MidiRenderer};
use soundyrust::bank::{InstrumentData, PresetData, SampleData, SoundFontBank, ZoneData};
use soundyrust::fixed::FP_ONE;
use soundyrust::midi::{MidiEvent, MidiSequencer, MidiTrack, MidiTrackAccumulateEvent};
use soundyrust::track::{
    MidiAudioTrack, MidiQueueEvent, MidiQueueEventType, MidiQueueLooping, MidiQueueTiming,
};

fn tiny_bank() -> SoundFontBank {
    SoundFontBank {
        presets: vec![PresetData {
            bank_number: 0,
            patch_number: 0,
            zones: vec![ZoneData {
                key_lo: 0,
                key_hi: 127,
                vel_lo: 0,
                vel_hi: 127,
                target: 0,
            }],
        }],
        instruments: vec![InstrumentData { zones: vec![] }],
        samples: vec![SampleData {
            start: 0,
            end: 2,
            sample_type: 1,
            original_pitch: 60,
            pitch_correction: 0,
        }],
        wave: vec![0; 8],
    }
}

fn frame(audio: &mut MidiAudio) {
    MidiRenderer::tick(audio, 0);
    MidiRenderer::tick(audio, 1);
}

#[test]
fn a_stop_queued_for_the_bar_boundary_waits_for_it() {
    let mut audio = MidiAudio {
        tracks: vec![],
        soundfont: tiny_bank(),
    };
    // one beat per bar: at 120 bpm the first bar boundary falls after
    // half a second of frames
    let track = MidiAudioTrack::new(
        MidiTrack {
            events: vec![],
            ticks_per_beat: 96,
        },
        1,
    )
    .with_queue(MidiQueueEvent {
        event: MidiQueueEventType::Stop,
        timing: MidiQueueTiming::Bar,
        looping: MidiQueueLooping::Once,
    });
    let h = audio.add_track(track);
    assert!(audio.is_playing(&h));
    // well before the boundary the track still plays and the event is
    // still pending
    for _ in 0..22000 {
        frame(&mut audio);
    }
    assert!(audio.is_playing(&h));
    assert_eq!(audio.tracks[0].queue.len(), 1);
    // the bar boundary falls within the next hundred frames; crossing it
    // stops the track and consumes the event
    for _ in 0..100 {
        frame(&mut audio);
    }
    assert!(!audio.is_playing(&h));
    assert_eq!(audio.tracks[0].queue.len(), 0);
}

#[test]
fn a_loop_repeat_event_fires_on_every_occurrence_of_its_boundary() {
    let mut audio = MidiAudio {
        tracks: vec![],
        soundfont: tiny_bank(),
    };
    // track 0 only drives the musical clock
    let clock = audio.add_track(MidiAudioTrack::new(
        MidiTrack {
            events: vec![],
            ticks_per_beat: 96,
        },
        4,
    ));
    // track 1 waits, silent, for every beat boundary
    let waiter = audio.add_track(
        MidiAudioTrack::new(
            MidiTrack {
                events: vec![],
                ticks_per_beat: 96,
            },
            4,
        )
        .stopped()
        .with_queue(MidiQueueEvent {
            event: MidiQueueEventType::Play,
            timing: MidiQueueTiming::Beat,
            looping: MidiQueueLooping::Loop,
        }),
    );
    assert!(audio.is_playing(&clock));
    assert!(!audio.is_playing(&waiter));
    // cross the first beat boundary
    for _ in 0..22100 {
        frame(&mut audio);
    }
    assert!(audio.is_playing(&waiter));
    // the event repeats: it is still queued, so stopping the track by
    // hand only lasts until the next beat
    assert_eq!(audio.tracks[1].queue.len(), 1);
    audio.tracks[1].is_playing = false;
    for _ in 0..22100 {
        frame(&mut audio);
    }
    assert!(audio.is_playing(&waiter));
    assert_eq!(audio.tracks[1].queue.len(), 1);
}

#[test]
fn a_queue_event_spawns_its_inner_event_when_due() {
    let mut audio = MidiAudio {
        tracks: vec![],
        soundfont: tiny_bank(),
    };
    let inner = MidiQueueEvent {
        event: MidiQueueEventType::Stop,
        timing: MidiQueueTiming::Bar,
        looping: MidiQueueLooping::Once,
    };
    let track = MidiAudioTrack::new(
        MidiTrack {
            events: vec![],
            ticks_per_beat: 96,
        },
        1,
    )
    .with_queue(MidiQueueEvent {
        event: MidiQueueEventType::Queue(Box::new(inner.clone())),
        timing: MidiQueueTiming::Loop,
        looping: MidiQueueLooping::Once,
    });
    let h = audio.add_track(track);
    // the very first frame crosses the loop boundary (the beat counter
    // starts at zero), so the chained Stop is queued at once
    frame(&mut audio);
    assert!(audio.is_playing(&h));
    assert_eq!(audio.tracks[0].queue.len(), 1);
    assert_eq!(audio.tracks[0].queue[0], inner);
    // and a bar later the spawned Stop silences the track
    for _ in 0..22200 {
        frame(&mut audio);
    }
    assert!(!audio.is_playing(&h));
}

#[test]
fn the_loop_signal_comes_once_per_pass_through_the_events() {
    let mut audio = MidiAudio {
        tracks: vec![],
        soundfont: tiny_bank(),
    };
    // a sharp tempo change first, so that each pass after the first one
    // takes exactly five frames: ten ticks per frame, last event at 50
    let track = MidiAudioTrack::new(
        MidiTrack {
            events: vec![
                MidiTrackAccumulateEvent {
                    time: 0,
                    inner: MidiEvent::SetTempo {
                        beats_per_minute: 60000 * FP_ONE,
                    },
                },
                MidiTrackAccumulateEvent {
                    time: 50,
                    inner: MidiEvent::NoteOff {
                        channel: 0,
                        note: 0,
                    },
                },
            ],
            ticks_per_beat: 441,
        },
        4,
    );
    audio.add_track(track);
    let mut signal_frames = Vec::new();
    for f in 1..=22 {
        if audio.tracks[0].beat == 0 {
            signal_frames.push(f);
        }
        frame(&mut audio);
    }
    // once at the start of the first pass, then exactly once per pass:
    // the first pass takes six frames (its first frame still ran at the
    // slow default tempo), every later pass five
    assert_eq!(signal_frames, vec![1, 7, 12, 17, 22]);
}

#[test]
fn a_sequencer_follows_tempo_changes_and_wraps() {
    let track = MidiTrack {
        events: vec![MidiTrackAccumulateEvent {
            time: 4,
            inner: MidiEvent::NoteOff {
                channel: 0,
                note: 0,
            },
        }],
        ticks_per_beat: 1,
    };
    let mut seq = MidiSequencer::new(track);
    assert_eq!(seq.bpm, 120 * FP_ONE);
    // at 120 bpm, one second is two beats
    assert_eq!(seq.time_to_bpm_beat(1_000_000), 2 * FP_ONE);
    // one second: two ticks, not yet at the event
    seq.tick(1_000_000);
    assert_eq!(seq.tick, 2 * FP_ONE);
    assert_eq!(seq.event_index, 0);
    // another second reaches tick four: the event fires and the
    // sequencer wraps, pulling the tick back by the final event's time
    seq.tick(1_000_000);
    assert_eq!(seq.event_index, 0);
    assert_eq!(seq.tick, 0);
    assert_eq!(seq.beat, 4 * FP_ONE);
}

#[test]
fn queue_on_an_unknown_handle_does_nothing() {
    let mut audio = MidiAudio {
        tracks: vec![],
        soundfont: tiny_bank(),
    };
    audio.queue(
        soundyrust::audio::MidiAudioTrackHandle(3),
        MidiQueueEvent {
            event: MidiQueueEventType::Play,
            timing: MidiQueueTiming::Beat,
            looping: MidiQueueLooping::Once,
        },
    );
    assert_eq!(audio.tracks.len(), 0);
    assert!(!audio.is_playing(&soundyrust::audio::MidiAudioTrackHandle(0)));
    assert_eq!(
        audio.beats_per_second(&soundyrust::audio::MidiAudioTrackHandle(0)),
        None
    );
}

#[test]
fn track_getters_report_tempo_and_bar_length() {
    let mut audio = MidiAudio {
        tracks: vec![],
        soundfont: tiny_bank(),
    };
    let h = audio.add_track(MidiAudioTrack::new(
        MidiTrack {
            events: vec![],
            ticks_per_beat: 96,
        },
        3,
    ));
    assert_eq!(audio.beats_per_second(&h), Some(2 * FP_ONE));
    assert_eq!(audio.beats_per_bar(&h), Some(3));
    let info = audio.synced_info(&h).unwrap();
    assert_eq!(info.beat, 0);
    assert_eq!(info.beats_per_second, 2 * FP_ONE);
}
