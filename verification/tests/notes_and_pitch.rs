//! Note positions and the fixed-point resampling speed.

use soundyrust::fixed::FP_ONE;
use soundyrust::notes::{Note, NoteLetter};
use soundyrust::voice::resample_speed;

#[test]
fn middle_c_sits_at_position_60() {
    let c4 = Note {
        note_letter: NoteLetter::C,
        sharp: false,
        octave: 4,
    };
    assert_eq!(c4.position(), 60);
}

#[test]
fn lowest_and_highest_positions() {
    let lowest = Note {
        note_letter: NoteLetter::C,
        sharp: false,
        octave: -1,
    };
    assert_eq!(lowest.position(), 0);
    let highest = Note {
        note_letter: NoteLetter::G,
        sharp: false,
        octave: 9,
    };
    assert_eq!(highest.position(), 127);
}

#[test]
fn from_position_round_trips_every_midi_key() {
    for p in 0u8..=127 {
        let n = Note::from_position(p);
        assert_eq!(n.position(), p);
    }
}

#[test]
fn sharps_come_back_as_sharps() {
    let cs4 = Note::from_position(61);
    assert_eq!(cs4.note_letter, NoteLetter::C);
    assert!(cs4.sharp);
    assert_eq!(cs4.octave, 4);
}

#[test]
fn speed_at_the_root_note_is_exactly_one() {
    assert_eq!(resample_speed(60, 60, 0), FP_ONE);
    assert_eq!(resample_speed(0, 0, 0), FP_ONE);
    assert_eq!(resample_speed(127, 127, 0), FP_ONE);
}

#[test]
fn speed_one_octave_above_is_exactly_two() {
    assert_eq!(resample_speed(72, 60, 0), 2 * FP_ONE);
    assert_eq!(resample_speed(12, 0, 0), 2 * FP_ONE);
}

#[test]
fn speed_one_octave_below_is_exactly_half() {
    assert_eq!(resample_speed(48, 60, 0), FP_ONE / 2);
}

#[test]
fn speed_grows_with_the_requested_note() {
    let low = resample_speed(59, 60, 0);
    let unison = resample_speed(60, 60, 0);
    let high = resample_speed(61, 60, 0);
    assert!(low < unison);
    assert!(unison < high);
}

#[test]
fn a_full_positive_cent_correction_is_one_semitone() {
    // +100 cents raises the speed to the next semitone ratio
    assert_eq!(resample_speed(60, 60, 100), resample_speed(61, 60, 0));
}
