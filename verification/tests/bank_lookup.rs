//! The SoundFont bank index: preset lookup and the two-level zone
//! filtering.

use soundyrust::bank::{InstrumentData, PresetData, SampleData, SoundFontBank, ZoneData};

fn zone(key_lo: i32, key_hi: i32, vel_lo: i32, vel_hi: i32, target: usize) -> ZoneData {
    ZoneData {
        key_lo,
        key_hi,
        vel_lo,
        vel_hi,
        target,
    }
}

fn sample(start: i32, end: i32) -> SampleData {
    SampleData {
        start,
        end,
        sample_type: 1,
        original_pitch: 60,
        pitch_correction: 0,
    }
}

fn small_bank() -> SoundFontBank {
    SoundFontBank {
        presets: vec![PresetData {
            bank_number: 0,
            patch_number: 0,
            zones: vec![zone(0, 127, 0, 127, 0)],
        }],
        instruments: vec![InstrumentData {
            zones: vec![zone(40, 80, 0, 127, 0), zone(60, 127, 0, 127, 1)],
        }],
        samples: vec![sample(0, 10), sample(10, 20)],
        wave: vec![0; 32],
    }
}

#[test]
fn lookup_without_a_preset_is_empty_not_an_error() {
    let bank = small_bank();
    assert!(bank.get_sample_headers(60, 100, 5, 7).is_none());
    assert!(bank.get_sample_headers(60, 100, 0, 1).is_none());
}

#[test]
fn lookup_filters_by_key_at_both_levels() {
    let bank = small_bank();
    // note 50 matches only the first instrument zone
    let hits = bank.get_sample_headers(50, 100, 0, 0).unwrap();
    assert_eq!(hits.len(), 1);
    assert_eq!(hits[0], sample(0, 10));
    // note 70 matches both instrument zones
    let hits = bank.get_sample_headers(70, 100, 0, 0).unwrap();
    assert_eq!(hits.len(), 2);
    assert_eq!(hits[0], sample(0, 10));
    assert_eq!(hits[1], sample(10, 20));
    // note 20 matches the preset zone but no instrument zone
    let hits = bank.get_sample_headers(20, 100, 0, 0).unwrap();
    assert_eq!(hits.len(), 0);
}

#[test]
fn lookup_filters_by_velocity() {
    let mut bank = small_bank();
    bank.presets[0].zones[0].vel_hi = 64;
    let hits = bank.get_sample_headers(50, 100, 0, 0).unwrap();
    assert_eq!(hits.len(), 0);
    let hits = bank.get_sample_headers(50, 64, 0, 0).unwrap();
    assert_eq!(hits.len(), 1);
}

#[test]
fn with_duplicate_presets_the_last_one_wins() {
    let mut bank = small_bank();
    bank.presets.push(PresetData {
        bank_number: 0,
        patch_number: 0,
        zones: vec![zone(0, 127, 0, 127, 0)],
    });
    // narrow the first preset so the difference is visible
    bank.presets[0].zones[0].key_hi = 10;
    let hits = bank.get_sample_headers(50, 100, 0, 0).unwrap();
    assert_eq!(hits.len(), 1);
}

#[test]
fn out_of_range_instrument_and_sample_indices_resolve_nothing() {
    let mut bank = small_bank();
    bank.presets[0].zones[0].target = 9;
    let hits = bank.get_sample_headers(50, 100, 0, 0).unwrap();
    assert_eq!(hits.len(), 0);
    let mut bank = small_bank();
    bank.instruments[0].zones[0].target = 9;
    bank.instruments[0].zones[1].target = 9;
    let hits = bank.get_sample_headers(70, 100, 0, 0).unwrap();
    assert_eq!(hits.len(), 0);
}

#[test]
fn stereo_presets_resolve_a_left_and_a_right_sample() {
    let bank = SoundFontBank {
        presets: vec![PresetData {
            bank_number: 128,
            patch_number: 9,
            zones: vec![zone(0, 127, 0, 127, 0)],
        }],
        instruments: vec![InstrumentData {
            zones: vec![zone(0, 127, 0, 127, 0), zone(0, 127, 0, 127, 1)],
        }],
        samples: vec![
            SampleData {
                sample_type: 4,
                ..sample(0, 10)
            },
            SampleData {
                sample_type: 2,
                ..sample(10, 20)
            },
        ],
        wave: vec![0; 32],
    };
    let hits = bank.get_sample_headers(60, 100, 128, 9).unwrap();
    assert_eq!(hits.len(), 2);
    assert_eq!(hits[0].sample_type, 4);
    assert_eq!(hits[1].sample_type, 2);
}
