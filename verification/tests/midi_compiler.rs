//! The MIDI compiler: merging, parsing, tempo conversion and the load
//! failure modes.

use soundyrust::fixed::FP_ONE;
use soundyrust::midi::{MidiEvent, MidiFile, MidiTrack, MidiTrackAccumulateEvent};
use soundyrust::smf::MidiFileError;

fn ev(time: u64, note: u8) -> MidiTrackAccumulateEvent {
    MidiTrackAccumulateEvent {
        time,
        inner: MidiEvent::NoteOn {
            channel: 0,
            note,
            velocity: 100,
        },
    }
}

#[test]
fn merge_interleaves_two_tracks_in_time_order() {
    let track_a = vec![ev(0, 1), ev(10, 2), ev(20, 3)];
    let track_b = vec![ev(5, 4), ev(15, 5)];
    let file = MidiFile {
        ticks_per_beat: 480,
        tracks: vec![track_a, track_b],
    };
    let merged = MidiTrack::from_midi_file(file);
    let times: Vec<u64> = merged.events.iter().map(|e| e.time).collect();
    assert_eq!(times, vec![0, 5, 10, 15, 20]);
    let notes: Vec<u8> = merged
        .events
        .iter()
        .map(|e| match e.inner {
            MidiEvent::NoteOn { note, .. } => note,
            _ => 0,
        })
        .collect();
    assert_eq!(notes, vec![1, 4, 2, 5, 3]);
    assert_eq!(merged.ticks_per_beat, 480);
}

#[test]
fn merge_breaks_ties_towards_the_earlier_track() {
    let track_a = vec![ev(5, 1)];
    let track_b = vec![ev(5, 2)];
    let file = MidiFile {
        ticks_per_beat: 96,
        tracks: vec![track_a, track_b],
    };
    let merged = MidiTrack::from_midi_file(file);
    let notes: Vec<u8> = merged
        .events
        .iter()
        .map(|e| match e.inner {
            MidiEvent::NoteOn { note, .. } => note,
            _ => 0,
        })
        .collect();
    assert_eq!(notes, vec![1, 2]);
}

#[test]
fn merged_times_never_decrease() {
    let track_a = vec![ev(3, 1), ev(3, 2), ev(9, 3)];
    let track_b = vec![ev(0, 4), ev(7, 5), ev(7, 6)];
    let track_c = vec![ev(2, 7)];
    let file = MidiFile {
        ticks_per_beat: 24,
        tracks: vec![track_a, track_b, track_c],
    };
    let merged = MidiTrack::from_midi_file(file);
    assert_eq!(merged.events.len(), 7);
    for pair in merged.events.windows(2) {
        assert!(pair[0].time <= pair[1].time);
    }
}

/// A header chunk for the given division, plus one track chunk with the
/// given event bytes.
fn smf(division: u16, track: &[u8]) -> Vec<u8> {
    let mut out = Vec::new();
    out.extend_from_slice(b"MThd");
    out.extend_from_slice(&6u32.to_be_bytes());
    out.extend_from_slice(&0u16.to_be_bytes());
    out.extend_from_slice(&1u16.to_be_bytes());
    out.extend_from_slice(&division.to_be_bytes());
    out.extend_from_slice(b"MTrk");
    out.extend_from_slice(&(track.len() as u32).to_be_bytes());
    out.extend_from_slice(track);
    out
}

#[test]
fn set_tempo_of_half_a_million_microseconds_is_exactly_120_bpm() {
    // delta 0, meta 0x51 length 3, 500000 microseconds per beat,
    // delta 0, end-of-track meta
    let track = [
        0x00, 0xff, 0x51, 0x03, 0x07, 0xa1, 0x20, 0x00, 0xff, 0x2f, 0x00,
    ];
    let merged = MidiTrack::from_bytes(&smf(480, &track)).unwrap();
    assert_eq!(merged.events.len(), 1);
    assert_eq!(merged.events[0].time, 0);
    assert_eq!(
        merged.events[0].inner,
        MidiEvent::SetTempo {
            beats_per_minute: 120 * FP_ONE,
        }
    );
}

#[test]
fn note_events_compile_with_accumulated_times() {
    // delta 0 note-on, delta 96 note-off (running status not used)
    let track = [
        0x00, 0x90, 60, 100, 0x60, 0x80, 60, 0, 0x00, 0xff, 0x2f, 0x00,
    ];
    let merged = MidiTrack::from_bytes(&smf(96, &track)).unwrap();
    assert_eq!(merged.events.len(), 2);
    assert_eq!(
        merged.events[0].inner,
        MidiEvent::NoteOn {
            channel: 0,
            note: 60,
            velocity: 100,
        }
    );
    assert_eq!(merged.events[0].time, 0);
    assert_eq!(
        merged.events[1].inner,
        MidiEvent::NoteOff {
            channel: 0,
            note: 60,
        }
    );
    assert_eq!(merged.events[1].time, 96);
}

#[test]
fn running_status_reuses_the_previous_status_byte() {
    // note-on with status, then a second note-on without one
    let track = [
        0x00, 0x91, 60, 100, 0x10, 62, 90, 0x00, 0xff, 0x2f, 0x00,
    ];
    let merged = MidiTrack::from_bytes(&smf(96, &track)).unwrap();
    assert_eq!(merged.events.len(), 2);
    assert_eq!(
        merged.events[1].inner,
        MidiEvent::NoteOn {
            channel: 1,
            note: 62,
            velocity: 90,
        }
    );
    assert_eq!(merged.events[1].time, 0x10);
}

#[test]
fn unrecognized_events_are_dropped_but_keep_their_delta_time() {
    // a controller message with delta 50, then a note-on with delta 50:
    // the note lands at tick 100
    let track = [
        0x32, 0xb0, 7, 99, 0x32, 0x90, 60, 100, 0x00, 0xff, 0x2f, 0x00,
    ];
    let merged = MidiTrack::from_bytes(&smf(96, &track)).unwrap();
    assert_eq!(merged.events.len(), 1);
    assert_eq!(merged.events[0].time, 100);
}

#[test]
fn file_without_header_chunk_is_rejected() {
    let mut out = Vec::new();
    out.extend_from_slice(b"MTrk");
    out.extend_from_slice(&4u32.to_be_bytes());
    out.extend_from_slice(&[0x00, 0xff, 0x2f, 0x00]);
    assert_eq!(
        MidiTrack::from_bytes(&out).unwrap_err(),
        MidiFileError::MissingHeader
    );
}

#[test]
fn smpte_division_is_rejected() {
    let bytes = smf(0x8000 | 0x1d00, &[0x00, 0xff, 0x2f, 0x00]);
    assert_eq!(
        MidiTrack::from_bytes(&bytes).unwrap_err(),
        MidiFileError::InvalidDivision
    );
}

#[test]
fn truncated_chunk_is_rejected() {
    let mut bytes = smf(480, &[0x00, 0xff, 0x2f, 0x00]);
    bytes.pop();
    assert_eq!(
        MidiTrack::from_bytes(&bytes).unwrap_err(),
        MidiFileError::TruncatedChunk
    );
}

#[test]
fn data_byte_with_high_bit_set_is_rejected() {
    let track = [0x00, 0x90, 0x85, 100, 0x00, 0xff, 0x2f, 0x00];
    assert_eq!(
        MidiTrack::from_bytes(&smf(480, &track)).unwrap_err(),
        MidiFileError::InvalidTrackData
    );
}

#[test]
fn empty_file_has_no_header() {
    assert_eq!(
        MidiTrack::from_bytes(&[]).unwrap_err(),
        MidiFileError::MissingHeader
    );
}

#[test]
fn multi_track_file_merges_across_chunks() {
    let mut out = Vec::new();
    out.extend_from_slice(b"MThd");
    out.extend_from_slice(&6u32.to_be_bytes());
    out.extend_from_slice(&0u16.to_be_bytes());
    out.extend_from_slice(&2u16.to_be_bytes());
    out.extend_from_slice(&96u16.to_be_bytes());
    for track in [
        // notes at ticks 0 and 10
        [0x00u8, 0x90, 60, 100, 0x0a, 0x90, 61, 100].as_slice(),
        // note at tick 5
        [0x05u8, 0x90, 70, 100].as_slice(),
    ] {
        out.extend_from_slice(b"MTrk");
        out.extend_from_slice(&(track.len() as u32).to_be_bytes());
        out.extend_from_slice(track);
    }
    let merged = MidiTrack::from_bytes(&out).unwrap();
    let times: Vec<u64> = merged.events.iter().map(|e| e.time).collect();
    assert_eq!(times, vec![0, 5, 10]);
}
