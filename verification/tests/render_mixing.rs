//! The voice renderer: interpolation, clamping, stereo slots, pruning and
//! the buffering bridge.

use std::collections::VecDeque;
use soundyrust::audio::{pull_sample, MidiAudio, MidiRenderer};
use soundyrust::bank::{InstrumentData, PresetData, SampleData, SoundFontBank, ZoneData};
use soundyrust::midi::MidiTrack;
use soundyrust::notes::{Note, NoteLetter};
use soundyrust::track::MidiAudioTrack;

fn full_zone(target: usize) -> ZoneData {
    ZoneData {
        key_lo: 0,
        key_hi: 127,
        vel_lo: 0,
        vel_hi: 127,
        target,
    }
}

/// A bank with one mono preset at (0, 0) whose single sample spans
/// `[0, end)` of the given wave, rooted at the given key.
fn mono_bank(wave: Vec<i16>, end: i32, root: i32) -> SoundFontBank {
    SoundFontBank {
        presets: vec![PresetData {
            bank_number: 0,
            patch_number: 0,
            zones: vec![full_zone(0)],
        }],
        instruments: vec![InstrumentData {
            zones: vec![full_zone(0)],
        }],
        samples: vec![SampleData {
            start: 0,
            end,
            sample_type: 1,
            original_pitch: root,
            pitch_correction: 0,
        }],
        wave,
    }
}

fn c4() -> Note {
    Note {
        note_letter: NoteLetter::C,
        sharp: false,
        octave: 4,
    }
}

fn empty_track() -> MidiAudioTrack {
    MidiAudioTrack::new(
        MidiTrack {
            events: vec![],
            ticks_per_beat: 96,
        },
        4,
    )
}

#[test]
fn one_full_velocity_voice_reproduces_the_wave_value() {
    let mut audio = MidiAudio {
        tracks: vec![],
        soundfont: mono_bank(vec![30000; 8], 6, 60),
    };
    let h = audio.add_track(empty_track());
    audio.start_playing_note(c4(), &h);
    let left = MidiRenderer::tick(&mut audio, 0);
    let right = MidiRenderer::tick(&mut audio, 1);
    assert_eq!(left, 30000);
    assert_eq!(right, 30000);
}

#[test]
fn overflowing_sums_clamp_to_the_16_bit_range_not_wrap() {
    let mut audio = MidiAudio {
        tracks: vec![],
        soundfont: mono_bank(vec![30000; 8], 6, 60),
    };
    let h1 = audio.add_track(empty_track());
    let h2 = audio.add_track(empty_track());
    audio.start_playing_note(c4(), &h1);
    audio.start_playing_note(c4(), &h2);
    assert_eq!(MidiRenderer::tick(&mut audio, 0), 32767);
    assert_eq!(MidiRenderer::tick(&mut audio, 1), 32767);

    let mut audio = MidiAudio {
        tracks: vec![],
        soundfont: mono_bank(vec![-30000; 8], 6, 60),
    };
    let h1 = audio.add_track(empty_track());
    let h2 = audio.add_track(empty_track());
    audio.start_playing_note(c4(), &h1);
    audio.start_playing_note(c4(), &h2);
    assert_eq!(MidiRenderer::tick(&mut audio, 0), -32768);
    assert_eq!(MidiRenderer::tick(&mut audio, 1), -32768);
}

#[test]
fn a_double_speed_voice_skips_every_other_wave_sample_and_then_dies() {
    // root a full octave below the requested note: speed 2.0
    let wave = vec![100, 200, 300, 400, 500, 600, 700, 800];
    let mut audio = MidiAudio {
        tracks: vec![],
        soundfont: mono_bank(wave, 6, 48),
    };
    let h = audio.add_track(empty_track());
    audio.start_playing_note(c4(), &h);
    let mut frames = Vec::new();
    for _ in 0..4 {
        let left = MidiRenderer::tick(&mut audio, 0);
        let right = MidiRenderer::tick(&mut audio, 1);
        assert_eq!(left, right);
        frames.push(left);
    }
    // positions 0, 2, 4; the position 6 has passed the end bound, so the
    // voice was pruned and the last frame is silence
    assert_eq!(frames, vec![100, 300, 500, 0]);
}

#[test]
fn fractional_positions_interpolate_linearly() {
    // a +50 cent correction interpolates halfway into the first semitone
    let wave = vec![100, 200, 300, 400, 500, 600, 700, 800];
    let mut audio = MidiAudio {
        tracks: vec![],
        soundfont: SoundFontBank {
            samples: vec![SampleData {
                start: 0,
                end: 6,
                sample_type: 1,
                original_pitch: 60,
                pitch_correction: 50,
            }],
            ..mono_bank(wave, 6, 60)
        },
    };
    let h = audio.add_track(empty_track());
    audio.start_playing_note(c4(), &h);
    let first = MidiRenderer::tick(&mut audio, 0);
    MidiRenderer::tick(&mut audio, 1);
    let second = MidiRenderer::tick(&mut audio, 0);
    assert_eq!(first, 100);
    // speed is 1 + 127696022/2^32 of a sample per frame; interpolating
    // between wave[1] and wave[2] at that fraction gives 202 exactly
    assert_eq!(second, 202);
}

#[test]
fn left_and_right_samples_sound_only_on_their_slot() {
    let bank = SoundFontBank {
        presets: vec![PresetData {
            bank_number: 0,
            patch_number: 0,
            zones: vec![full_zone(0)],
        }],
        instruments: vec![InstrumentData {
            zones: vec![full_zone(0), full_zone(1)],
        }],
        samples: vec![
            SampleData {
                start: 0,
                end: 6,
                sample_type: 4,
                original_pitch: 60,
                pitch_correction: 0,
            },
            SampleData {
                start: 0,
                end: 6,
                sample_type: 2,
                original_pitch: 60,
                pitch_correction: 0,
            },
        ],
        wave: vec![1000, 1000, 1000, 1000, 1000, 1000, 1000, 1000],
    };
    let mut audio = MidiAudio {
        tracks: vec![],
        soundfont: bank,
    };
    let h = audio.add_track(empty_track());
    audio.start_playing_note(c4(), &h);
    // one left sample and one right sample: each slot hears exactly one
    assert_eq!(MidiRenderer::tick(&mut audio, 0), 1000);
    assert_eq!(MidiRenderer::tick(&mut audio, 1), 1000);
}

#[test]
fn velocity_scales_the_volume() {
    // a manual note always plays at full velocity; feed a quieter one
    // through a compiled note-on event instead
    let wave = vec![12700; 8];
    let mut audio = MidiAudio {
        tracks: vec![],
        soundfont: mono_bank(wave, 6, 60),
    };
    let track = MidiAudioTrack::new(
        MidiTrack {
            events: vec![soundyrust::midi::MidiTrackAccumulateEvent {
                time: 0,
                inner: soundyrust::midi::MidiEvent::NoteOn {
                    channel: 0,
                    note: 60,
                    velocity: 64,
                },
            }],
            ticks_per_beat: 96,
        },
        4,
    );
    audio.add_track(track);
    // the first frame dispatches the note-on, then mixes
    let got = MidiRenderer::tick(&mut audio, 0);
    // 12700 scaled by the Q32.32 volume floor(64 * 2^32 / 127), truncated:
    // one less than the exact 6400 because the volume itself rounds down
    assert_eq!(got, 6399);
}

#[test]
fn stopping_a_note_silences_it() {
    let mut audio = MidiAudio {
        tracks: vec![],
        soundfont: mono_bank(vec![5000; 8], 6, 60),
    };
    let h = audio.add_track(empty_track());
    audio.start_playing_note(c4(), &h);
    assert_eq!(MidiRenderer::tick(&mut audio, 0), 5000);
    MidiRenderer::tick(&mut audio, 1);
    audio.stop_playing_note(c4(), &h);
    assert_eq!(MidiRenderer::tick(&mut audio, 0), 0);
}

#[test]
fn unmapped_patches_and_unmapped_notes_stay_silent() {
    let mut audio = MidiAudio {
        tracks: vec![],
        soundfont: mono_bank(vec![5000; 8], 6, 60),
    };
    let h = audio.add_track(empty_track().with_channel_patch(0, 3, 3));
    // channel 0 now selects a bank and patch the SoundFont lacks
    audio.start_playing_note(c4(), &h);
    assert_eq!(MidiRenderer::tick(&mut audio, 0), 0);
}

#[test]
fn channel_nine_selects_the_percussion_bank_by_default() {
    // the only preset sits in bank 128: a note on channel 9 finds it,
    // a note on channel 0 does not
    let mut bank = mono_bank(vec![2500; 8], 6, 60);
    bank.presets[0].bank_number = 128;
    let mut audio = MidiAudio {
        tracks: vec![],
        soundfont: bank,
    };
    let track = MidiAudioTrack::new(
        MidiTrack {
            events: vec![
                soundyrust::midi::MidiTrackAccumulateEvent {
                    time: 0,
                    inner: soundyrust::midi::MidiEvent::NoteOn {
                        channel: 9,
                        note: 60,
                        velocity: 127,
                    },
                },
                soundyrust::midi::MidiTrackAccumulateEvent {
                    time: 0,
                    inner: soundyrust::midi::MidiEvent::NoteOn {
                        channel: 0,
                        note: 62,
                        velocity: 127,
                    },
                },
            ],
            ticks_per_beat: 96,
        },
        4,
    );
    audio.add_track(track);
    // only the channel 9 voice sounds
    assert_eq!(MidiRenderer::tick(&mut audio, 0), 2500);
}

#[test]
fn pulls_on_an_empty_buffer_yield_silence() {
    let mut buffer: VecDeque<i16> = VecDeque::new();
    assert_eq!(pull_sample(&mut buffer), 0);
    assert_eq!(pull_sample(&mut buffer), 0);
    buffer.push_back(7);
    buffer.push_back(-3);
    assert_eq!(pull_sample(&mut buffer), 7);
    assert_eq!(pull_sample(&mut buffer), -3);
    assert_eq!(pull_sample(&mut buffer), 0);
}

#[test]
fn render_fills_the_buffer_with_interleaved_frames() {
    let mut audio = MidiAudio {
        tracks: vec![],
        soundfont: mono_bank(vec![4000; 8], 6, 60),
    };
    let h = audio.add_track(empty_track());
    audio.start_playing_note(c4(), &h);
    let mut renderer = MidiRenderer::new();
    let mut buffer: VecDeque<i16> = VecDeque::new();
    renderer.render(&mut audio, &mut buffer, 4);
    assert_eq!(buffer.len(), 4);
    for _ in 0..4 {
        assert_eq!(pull_sample(&mut buffer), 4000);
    }
}
