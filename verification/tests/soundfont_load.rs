//! Loading a real SoundFont binary through rustysynth and checking what
//! the bank extracted from it.

use soundyrust::audio::{MidiAudio, MidiRenderer};
use soundyrust::bank::SoundFontBank;
use soundyrust::midi::MidiTrack;
use soundyrust::notes::{Note, NoteLetter};
use soundyrust::track::MidiAudioTrack;

fn chunk(id: &[u8; 4], body: &[u8]) -> Vec<u8> {
    let mut out = Vec::new();
    out.extend_from_slice(id);
    out.extend_from_slice(&(body.len() as u32).to_le_bytes());
    out.extend_from_slice(body);
    out
}

fn list(kind: &[u8; 4], body: &[u8]) -> Vec<u8> {
    let mut inner = Vec::new();
    inner.extend_from_slice(kind);
    inner.extend_from_slice(body);
    chunk(b"LIST", &inner)
}

fn name20(name: &str) -> [u8; 20] {
    let mut out = [0u8; 20];
    for (i, b) in name.bytes().enumerate() {
        out[i] = b;
    }
    out
}

fn phdr_record(name: &str, patch: u16, bank: u16, zone_start: u16) -> Vec<u8> {
    let mut out = Vec::new();
    out.extend_from_slice(&name20(name));
    out.extend_from_slice(&patch.to_le_bytes());
    out.extend_from_slice(&bank.to_le_bytes());
    out.extend_from_slice(&zone_start.to_le_bytes());
    out.extend_from_slice(&0i32.to_le_bytes());
    out.extend_from_slice(&0i32.to_le_bytes());
    out.extend_from_slice(&0i32.to_le_bytes());
    out
}

fn bag_record(gen_index: u16) -> Vec<u8> {
    let mut out = Vec::new();
    out.extend_from_slice(&gen_index.to_le_bytes());
    out.extend_from_slice(&0u16.to_le_bytes());
    out
}

fn gen_record(gen_type: u16, value: u16) -> Vec<u8> {
    let mut out = Vec::new();
    out.extend_from_slice(&gen_type.to_le_bytes());
    out.extend_from_slice(&value.to_le_bytes());
    out
}

fn inst_record(name: &str, zone_start: u16) -> Vec<u8> {
    let mut out = Vec::new();
    out.extend_from_slice(&name20(name));
    out.extend_from_slice(&zone_start.to_le_bytes());
    out
}

#[allow(clippy::too_many_arguments)]
fn shdr_record(
    name: &str,
    start: i32,
    end: i32,
    rate: i32,
    pitch: u8,
    correction: i8,
    link: u16,
    kind: u16,
) -> Vec<u8> {
    let mut out = Vec::new();
    out.extend_from_slice(&name20(name));
    out.extend_from_slice(&start.to_le_bytes());
    out.extend_from_slice(&end.to_le_bytes());
    out.extend_from_slice(&start.to_le_bytes());
    out.extend_from_slice(&end.to_le_bytes());
    out.extend_from_slice(&rate.to_le_bytes());
    out.push(pitch);
    out.extend_from_slice(&correction.to_le_bytes());
    out.extend_from_slice(&link.to_le_bytes());
    out.extend_from_slice(&kind.to_le_bytes());
    out
}

/// A minimal SoundFont: one mono preset at (0, 0), one instrument, one
/// sample spanning the first six of eight wave values.
fn tiny_sf2() -> Vec<u8> {
    tiny_sf2_custom(0, 0, 6)
}

/// The same file with the first preset zone's generator index replaced,
/// to probe the loader's index validation.
fn tiny_sf2_with_first_pbag_index(first_gen_index: u16) -> Vec<u8> {
    tiny_sf2_custom(first_gen_index, 0, 6)
}

/// The same file with chosen zone indexing and sample bounds, to probe
/// the loader's validation.
fn tiny_sf2_custom(first_gen_index: u16, sample_start: i32, sample_end: i32) -> Vec<u8> {
    let wave: Vec<i16> = vec![1000, 2000, 3000, 4000, 5000, 6000, 7000, 8000];
    let mut wave_bytes = Vec::new();
    for w in &wave {
        wave_bytes.extend_from_slice(&w.to_le_bytes());
    }

    let info = list(b"INFO", &chunk(b"ifil", &[2, 0, 0, 0]));
    let sdta = list(b"sdta", &chunk(b"smpl", &wave_bytes));

    let mut phdr = phdr_record("piano", 0, 0, 0);
    phdr.extend_from_slice(&phdr_record("EOP", 0, 0, 1));
    let mut pbag = bag_record(first_gen_index);
    pbag.extend_from_slice(&bag_record(1));
    // the instrument generator points the preset zone at instrument 0
    let mut pgen = gen_record(41, 0);
    pgen.extend_from_slice(&gen_record(0, 0));
    let mut inst = inst_record("keys", 0);
    inst.extend_from_slice(&inst_record("EOI", 1));
    let mut ibag = bag_record(0);
    ibag.extend_from_slice(&bag_record(1));
    // the sample-id generator points the instrument zone at sample 0
    let mut igen = gen_record(53, 0);
    igen.extend_from_slice(&gen_record(0, 0));
    let mut shdr = shdr_record("tone", sample_start, sample_end, 44100, 72, -8, 0, 1);
    shdr.extend_from_slice(&shdr_record("EOS", 0, 0, 0, 0, 0, 0, 0));

    let mut pdta_body = Vec::new();
    pdta_body.extend_from_slice(&chunk(b"phdr", &phdr));
    pdta_body.extend_from_slice(&chunk(b"pbag", &pbag));
    pdta_body.extend_from_slice(&chunk(b"pgen", &pgen));
    pdta_body.extend_from_slice(&chunk(b"inst", &inst));
    pdta_body.extend_from_slice(&chunk(b"ibag", &ibag));
    pdta_body.extend_from_slice(&chunk(b"igen", &igen));
    pdta_body.extend_from_slice(&chunk(b"shdr", &shdr));
    let pdta = list(b"pdta", &pdta_body);

    let mut body = Vec::new();
    body.extend_from_slice(b"sfbk");
    body.extend_from_slice(&info);
    body.extend_from_slice(&sdta);
    body.extend_from_slice(&pdta);
    chunk(b"RIFF", &body)
}

#[test]
fn the_bank_extracts_the_preset_hierarchy_and_the_wave() {
    let bank = SoundFontBank::from_bytes(&tiny_sf2()).unwrap();
    assert_eq!(bank.wave, vec![1000, 2000, 3000, 4000, 5000, 6000, 7000, 8000]);
    assert_eq!(bank.presets.len(), 1);
    assert_eq!(bank.presets[0].bank_number, 0);
    assert_eq!(bank.presets[0].patch_number, 0);
    assert_eq!(bank.presets[0].zones.len(), 1);
    let pz = bank.presets[0].zones[0];
    assert_eq!((pz.key_lo, pz.key_hi), (0, 127));
    assert_eq!((pz.vel_lo, pz.vel_hi), (0, 127));
    assert_eq!(pz.target, 0);
    assert_eq!(bank.instruments.len(), 1);
    assert_eq!(bank.instruments[0].zones.len(), 1);
    assert_eq!(bank.instruments[0].zones[0].target, 0);
    assert_eq!(bank.samples.len(), 1);
    let s = bank.samples[0];
    assert_eq!(s.start, 0);
    assert_eq!(s.end, 6);
    assert_eq!(s.sample_type, 1);
    assert_eq!(s.original_pitch, 72);
    assert_eq!(s.pitch_correction, -8);
}

#[test]
fn a_loaded_bank_resolves_and_renders_a_note() {
    let bank = SoundFontBank::from_bytes(&tiny_sf2()).unwrap();
    let hits = bank.get_sample_headers(60, 100, 0, 0).unwrap();
    assert_eq!(hits.len(), 1);
    assert_eq!(hits[0].end, 6);
    // and no preset means silence, not an error
    assert!(bank.get_sample_headers(60, 100, 1, 1).is_none());

    let mut audio = MidiAudio {
        tracks: vec![],
        soundfont: bank,
    };
    let h = audio.add_track(MidiAudioTrack::new(
        MidiTrack {
            events: vec![],
            ticks_per_beat: 96,
        },
        4,
    ));
    audio.start_playing_note(
        Note {
            note_letter: NoteLetter::C,
            sharp: false,
            octave: 4,
        },
        &h,
    );
    // the sample was recorded an octave above middle C, so the voice
    // plays below unit speed and the first frame reads the wave's start
    assert_eq!(MidiRenderer::tick(&mut audio, 0), 1000);
}

#[test]
fn garbage_bytes_are_a_load_error_not_a_bank() {
    assert!(SoundFontBank::from_bytes(b"not a soundfont").is_err());
    assert!(MidiAudio::from_bytes(&[0u8; 16]).is_err());
}

#[test]
fn out_of_bounds_zone_indices_are_a_load_error_not_a_crash() {
    // a preset zone whose generator index points far past the generator
    // table: the structural check turns this into an error before the
    // parser's unchecked indexing could see it
    let crafted = tiny_sf2_with_first_pbag_index(99);
    assert!(SoundFontBank::from_bytes(&crafted).is_err());
}

#[test]
fn oversized_sample_addresses_are_a_load_error() {
    // sample addresses at 2^30 and above could overflow the parser's
    // signed 32-bit address sums once coarse offsets are added, so the
    // structural check rejects them up front
    let crafted = tiny_sf2_custom(0, 0x4000_0000, 0x4000_0006);
    assert!(SoundFontBank::from_bytes(&crafted).is_err());
}

#[test]
fn a_truncated_soundfont_is_a_load_error() {
    let mut bytes = tiny_sf2();
    bytes.truncate(bytes.len() - 10);
    assert!(SoundFontBank::from_bytes(&bytes).is_err());
}

#[test]
fn a_mixer_loads_straight_from_soundfont_bytes() {
    let audio = MidiAudio::from_bytes(&tiny_sf2()).unwrap();
    assert_eq!(audio.tracks.len(), 0);
    assert_eq!(audio.soundfont.presets.len(), 1);
}
