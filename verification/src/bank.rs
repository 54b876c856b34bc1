//! The SoundFont bank index.
//!
//! A SoundFont holds presets; a preset holds zones that point at
//! instruments; an instrument holds zones that point at sample headers;
//! both kinds of zone restrict the keys and velocities they apply to. The
//! bank copies that whole hierarchy, once, into plain owned data
//! ([`PresetData`], [`InstrumentData`], [`SampleData`] and the raw wave
//! samples), so that the lookup from a (bank, patch, note, velocity)
//! request to its sample regions is ordinary verified code.
//!
//! Reading the SoundFont itself goes through `rustysynth`; each accessor
//! relied on is wrapped once, with its result named, in the trusted layer
//! at the top of this module.

use vstd::prelude::*;

verus! {

// ---------------------------------------------------------------------
// The trusted layer over rustysynth.
// ---------------------------------------------------------------------

#[verifier::external_type_specification]
#[verifier::external_body]
pub struct ExSoundFont(rustysynth::SoundFont);

#[verifier::external_type_specification]
#[verifier::external_body]
pub struct ExPreset(rustysynth::Preset);

#[verifier::external_type_specification]
#[verifier::external_body]
pub struct ExPresetRegion(rustysynth::PresetRegion);

#[verifier::external_type_specification]
#[verifier::external_body]
pub struct ExInstrument(rustysynth::Instrument);

#[verifier::external_type_specification]
#[verifier::external_body]
pub struct ExInstrumentRegion(rustysynth::InstrumentRegion);

#[verifier::external_type_specification]
#[verifier::external_body]
pub struct ExSampleHeader(rustysynth::SampleHeader);

#[verifier::external_type_specification]
#[verifier::external_body]
pub struct ExSoundFontError(rustysynth::SoundFontError);

pub uninterp spec fn spec_sf_presets(sf: rustysynth::SoundFont) -> Seq<rustysynth::Preset>;

pub uninterp spec fn spec_sf_instruments(sf: rustysynth::SoundFont) -> Seq<rustysynth::Instrument>;

pub uninterp spec fn spec_sf_sample_headers(sf: rustysynth::SoundFont) -> Seq<
    rustysynth::SampleHeader,
>;

pub uninterp spec fn spec_sf_wave_data(sf: rustysynth::SoundFont) -> Seq<i16>;

pub uninterp spec fn spec_preset_bank_number(p: rustysynth::Preset) -> int;

pub uninterp spec fn spec_preset_patch_number(p: rustysynth::Preset) -> int;

pub uninterp spec fn spec_preset_regions(p: rustysynth::Preset) -> Seq<rustysynth::PresetRegion>;

pub uninterp spec fn spec_pr_key_lo(r: rustysynth::PresetRegion) -> int;

pub uninterp spec fn spec_pr_key_hi(r: rustysynth::PresetRegion) -> int;

pub uninterp spec fn spec_pr_vel_lo(r: rustysynth::PresetRegion) -> int;

pub uninterp spec fn spec_pr_vel_hi(r: rustysynth::PresetRegion) -> int;

pub uninterp spec fn spec_pr_instrument_id(r: rustysynth::PresetRegion) -> int;

pub uninterp spec fn spec_instrument_regions(i: rustysynth::Instrument) -> Seq<
    rustysynth::InstrumentRegion,
>;

pub uninterp spec fn spec_ir_key_lo(r: rustysynth::InstrumentRegion) -> int;

pub uninterp spec fn spec_ir_key_hi(r: rustysynth::InstrumentRegion) -> int;

pub uninterp spec fn spec_ir_vel_lo(r: rustysynth::InstrumentRegion) -> int;

pub uninterp spec fn spec_ir_vel_hi(r: rustysynth::InstrumentRegion) -> int;

pub uninterp spec fn spec_ir_sample_id(r: rustysynth::InstrumentRegion) -> int;

pub uninterp spec fn spec_sh_start(h: rustysynth::SampleHeader) -> int;

pub uninterp spec fn spec_sh_end(h: rustysynth::SampleHeader) -> int;

pub uninterp spec fn spec_sh_original_pitch(h: rustysynth::SampleHeader) -> int;

pub uninterp spec fn spec_sh_pitch_correction(h: rustysynth::SampleHeader) -> int;

pub uninterp spec fn spec_sh_sample_type(h: rustysynth::SampleHeader) -> int;

/// What the SoundFont binary parser accepts: whether `SoundFont::new`
/// returns Ok on these bytes. The parse reads the bytes alone, so its
/// outcome is a function of them.
pub uninterp spec fn spec_sf2_accepted(bytes: Seq<u8>) -> bool;

/// The SoundFont value the parser builds from accepted bytes.
pub uninterp spec fn spec_sf2_parsed(bytes: Seq<u8>) -> rustysynth::SoundFont;

// ---------------------------------------------------------------------
// A structural pre-check of the SF2 binary.
//
// rustysynth's parser indexes its generator list and slices its zone
// list with indices taken straight from the file (Zone::new,
// Preset::new, Instrument::new), and maps an odd smpl chunk size onto
// an even-sized buffer, so on crafted bytes it can panic. The check
// below walks the same chunk structure the parser walks and accepts
// only files whose chunks are exactly aligned, whose index tables
// stay in bounds, and whose sample addresses are small enough that
// the signed 32-bit sums the parser's sanity check computes from
// them (address plus coarse and fine offsets) cannot overflow; on
// such files the parser takes the same positions and cannot reach an
// out-of-range index or an overflowing sum. The check is stricter
// than the parser in two ways: a file whose chunks overrun or
// underfill their list is rejected even where the parser would
// tolerate it, and so is a sample address at 2^30 or above.
// Well-formed SoundFont files are exactly aligned and address waves
// far below that bound.
// ---------------------------------------------------------------------

/// The little-endian 16-bit value at `i`.
pub open spec fn spec_u16_le(b: Seq<u8>, i: int) -> int {
    b[i] + 256 * b[i + 1]
}

/// The little-endian 32-bit value at `i`.
pub open spec fn spec_u32_le(b: Seq<u8>, i: int) -> int {
    b[i] + 256 * b[i + 1] + 65536 * b[i + 2] + 16777216 * b[i + 3]
}

/// Whether the four bytes at `i` spell the given chunk id.
pub open spec fn spec_tag_is(b: Seq<u8>, i: int, c0: u8, c1: u8, c2: u8, c3: u8) -> bool {
    b[i] == c0 && b[i + 1] == c1 && b[i + 2] == c2 && b[i + 3] == c3
}

/// Which of the three SF2 lists a chunk walk is inside.
#[derive(Clone, Copy, Debug, PartialEq, Eq, Structural)]
pub enum Sf2ListKind {
    Info,
    SampleData,
    Hydra,
}

/// Whether the chunk whose id starts at `pos` is one this list may hold,
/// with a size its reader consumes exactly: the version chunks are four
/// bytes, the wave data is an even number of bytes, and every hydra
/// table is a whole number of its records.
pub open spec fn spec_sf2_entry_ok(kind: Sf2ListKind, b: Seq<u8>, pos: int) -> bool {
    let sz = spec_u32_le(b, pos + 4);
    match kind {
        Sf2ListKind::Info => {
            ||| ((spec_tag_is(b, pos, 0x69, 0x66, 0x69, 0x6c) || spec_tag_is(
                b,
                pos,
                0x69,
                0x76,
                0x65,
                0x72,
            )) && sz == 4)
            ||| spec_tag_is(b, pos, 0x69, 0x73, 0x6e, 0x67)
            ||| spec_tag_is(b, pos, 0x49, 0x4e, 0x41, 0x4d)
            ||| spec_tag_is(b, pos, 0x69, 0x72, 0x6f, 0x6d)
            ||| spec_tag_is(b, pos, 0x49, 0x43, 0x52, 0x44)
            ||| spec_tag_is(b, pos, 0x49, 0x45, 0x4e, 0x47)
            ||| spec_tag_is(b, pos, 0x49, 0x50, 0x52, 0x44)
            ||| spec_tag_is(b, pos, 0x49, 0x43, 0x4f, 0x50)
            ||| spec_tag_is(b, pos, 0x49, 0x43, 0x4d, 0x54)
            ||| spec_tag_is(b, pos, 0x49, 0x53, 0x46, 0x54)
        },
        Sf2ListKind::SampleData => {
            ||| (spec_tag_is(b, pos, 0x73, 0x6d, 0x70, 0x6c) && sz % 2 == 0)
            ||| spec_tag_is(b, pos, 0x73, 0x6d, 0x32, 0x34)
        },
        Sf2ListKind::Hydra => {
            ||| (spec_tag_is(b, pos, 0x70, 0x68, 0x64, 0x72) && sz % 38 == 0 && sz > 0)
            ||| (spec_tag_is(b, pos, 0x70, 0x62, 0x61, 0x67) && sz % 4 == 0 && sz > 0)
            ||| spec_tag_is(b, pos, 0x70, 0x6d, 0x6f, 0x64)
            ||| (spec_tag_is(b, pos, 0x70, 0x67, 0x65, 0x6e) && sz % 4 == 0 && sz > 0)
            ||| (spec_tag_is(b, pos, 0x69, 0x6e, 0x73, 0x74) && sz % 22 == 0 && sz > 0)
            ||| (spec_tag_is(b, pos, 0x69, 0x62, 0x61, 0x67) && sz % 4 == 0 && sz > 0)
            ||| spec_tag_is(b, pos, 0x69, 0x6d, 0x6f, 0x64)
            ||| (spec_tag_is(b, pos, 0x69, 0x67, 0x65, 0x6e) && sz % 4 == 0 && sz > 0)
            ||| (spec_tag_is(b, pos, 0x73, 0x68, 0x64, 0x72) && sz % 46 == 0 && sz > 0)
        },
    }
}

/// Whether the chunks from `pos` fill the list up to `end` exactly, each
/// one recognized and sized as above.
pub open spec fn spec_sf2_list_walk(kind: Sf2ListKind, b: Seq<u8>, pos: int, end: int) -> bool
    decreases end - pos,
{
    if pos >= end {
        pos == end
    } else if pos + 8 > end {
        false
    } else {
        let sz = spec_u32_le(b, pos + 4);
        &&& spec_sf2_entry_ok(kind, b, pos)
        &&& pos + 8 + sz <= end
        &&& spec_sf2_list_walk(kind, b, pos + 8 + sz, end)
    }
}

/// Whether a LIST chunk of the given type stands at `pos` and its
/// contents walk cleanly.
pub open spec fn spec_sf2_list_ok(
    kind: Sf2ListKind,
    b: Seq<u8>,
    pos: int,
    t0: u8,
    t1: u8,
    t2: u8,
    t3: u8,
) -> bool {
    &&& pos + 12 <= b.len()
    &&& spec_tag_is(b, pos, 0x4c, 0x49, 0x53, 0x54)
    &&& ({
        let sz = spec_u32_le(b, pos + 4);
        &&& sz >= 4
        &&& pos + 8 + sz <= b.len()
        &&& spec_tag_is(b, pos + 8, t0, t1, t2, t3)
        &&& spec_sf2_list_walk(kind, b, pos + 12, pos + 8 + sz)
    })
}

/// The data offset and size of the last chunk with the given id in the
/// walked range; the parser keeps the last one it reads.
pub open spec fn spec_sf2_last_chunk(
    b: Seq<u8>,
    pos: int,
    end: int,
    c0: u8,
    c1: u8,
    c2: u8,
    c3: u8,
) -> Option<(int, int)>
    decreases end - pos,
{
    if pos + 8 > end {
        None
    } else {
        let sz = spec_u32_le(b, pos + 4);
        if pos + 8 + sz > end {
            None
        } else {
            let rest = spec_sf2_last_chunk(b, pos + 8 + sz, end, c0, c1, c2, c3);
            if rest is Some {
                rest
            } else if spec_tag_is(b, pos, c0, c1, c2, c3) {
                Some((pos + 8, sz))
            } else {
                None
            }
        }
    }
}

/// Every zone record of a bag table points its generator index at or
/// before the end of the generator table, so the generator spans the
/// parser builds from consecutive indices stay in bounds.
pub open spec fn spec_sf2_bag_ok(b: Seq<u8>, off: int, size: int, gen_count: int) -> bool {
    forall|k: int| 0 <= k < size / 4 ==> #[trigger] spec_u16_le(b, off + 4 * k) <= gen_count
}

/// Every header record points its zone start index into the bag table
/// (its last record is the terminator), so the zone spans the parser
/// slices stay in bounds.
pub open spec fn spec_sf2_hdr_ok(
    b: Seq<u8>,
    off: int,
    size: int,
    rec: int,
    field: int,
    bag_count: int,
) -> bool {
    forall|k: int|
        0 <= k < size / rec ==> #[trigger] spec_u16_le(b, off + rec * k + field) <= bag_count - 1
}

/// Whether one sample-header record keeps its four address dwords
/// (start, end, loop start, loop end) below 2^30. The parser's sanity
/// check adds coarse and fine offsets of at most 2^30 + 2^15 in
/// magnitude to each of them in signed 32-bit arithmetic, so under this
/// bound none of those sums can overflow.
pub open spec fn spec_sf2_shdr_record_ok(b: Seq<u8>, off: int) -> bool {
    &&& spec_u32_le(b, off + 20) < 0x40000000
    &&& spec_u32_le(b, off + 24) < 0x40000000
    &&& spec_u32_le(b, off + 28) < 0x40000000
    &&& spec_u32_le(b, off + 32) < 0x40000000
}

/// Every record of the sample-header table keeps its addresses bounded.
pub open spec fn spec_sf2_shdr_ok(b: Seq<u8>, off: int, size: int) -> bool {
    forall|k: int| 0 <= k < size / 46 ==> #[trigger] spec_sf2_shdr_record_ok(b, off + 46 * k)
}

/// Whether the hydra list holds all six index tables and their indices
/// stay in bounds. Generator tables end in a terminator record, bag
/// tables in a terminator zone.
pub open spec fn spec_sf2_tables_ok(b: Seq<u8>, start: int, end: int) -> bool {
    let phdr = spec_sf2_last_chunk(b, start, end, 0x70, 0x68, 0x64, 0x72);
    let pbag = spec_sf2_last_chunk(b, start, end, 0x70, 0x62, 0x61, 0x67);
    let pgen = spec_sf2_last_chunk(b, start, end, 0x70, 0x67, 0x65, 0x6e);
    let inst = spec_sf2_last_chunk(b, start, end, 0x69, 0x6e, 0x73, 0x74);
    let ibag = spec_sf2_last_chunk(b, start, end, 0x69, 0x62, 0x61, 0x67);
    let igen = spec_sf2_last_chunk(b, start, end, 0x69, 0x67, 0x65, 0x6e);
    &&& phdr is Some
    &&& pbag is Some
    &&& pgen is Some
    &&& inst is Some
    &&& ibag is Some
    &&& igen is Some
    &&& pbag.unwrap().1 >= 4
    &&& pgen.unwrap().1 >= 4
    &&& ibag.unwrap().1 >= 4
    &&& igen.unwrap().1 >= 4
    &&& spec_sf2_bag_ok(b, pbag.unwrap().0, pbag.unwrap().1, pgen.unwrap().1 / 4 - 1)
    &&& spec_sf2_bag_ok(b, ibag.unwrap().0, ibag.unwrap().1, igen.unwrap().1 / 4 - 1)
    &&& spec_sf2_hdr_ok(b, phdr.unwrap().0, phdr.unwrap().1, 38, 24, pbag.unwrap().1 / 4)
    &&& spec_sf2_hdr_ok(b, inst.unwrap().0, inst.unwrap().1, 22, 20, ibag.unwrap().1 / 4)
    &&& ({
        let shdr = spec_sf2_last_chunk(b, start, end, 0x73, 0x68, 0x64, 0x72);
        shdr is Some ==> spec_sf2_shdr_ok(b, shdr.unwrap().0, shdr.unwrap().1)
    })
}

/// Whether the whole binary is structurally safe to hand to the parser:
/// a RIFF sfbk header, then the info, sample-data and hydra lists in
/// order, each exactly aligned, with the hydra index tables in bounds.
pub open spec fn spec_sf2_load_safe(b: Seq<u8>) -> bool {
    &&& b.len() >= 12
    &&& spec_tag_is(b, 0, 0x52, 0x49, 0x46, 0x46)
    &&& spec_tag_is(b, 8, 0x73, 0x66, 0x62, 0x6b)
    &&& spec_sf2_list_ok(Sf2ListKind::Info, b, 12, 0x49, 0x4e, 0x46, 0x4f)
    &&& ({
        let sdta_pos = 12 + 8 + spec_u32_le(b, 16int);
        &&& spec_sf2_list_ok(Sf2ListKind::SampleData, b, sdta_pos, 0x73, 0x64, 0x74, 0x61)
        &&& ({
            let pdta_pos = sdta_pos + 8 + spec_u32_le(b, sdta_pos + 4);
            &&& spec_sf2_list_ok(Sf2ListKind::Hydra, b, pdta_pos, 0x70, 0x64, 0x74, 0x61)
            &&& spec_sf2_tables_ok(b, pdta_pos + 12, pdta_pos + 8 + spec_u32_le(b, pdta_pos + 4))
        })
    })
}

/// The little-endian 16-bit value at `i`.
fn read_u16_le(b: &[u8], i: usize) -> (r: u64)
    requires
        i + 2 <= b@.len(),
    ensures
        r == spec_u16_le(b@, i as int),
{
    let n = b.len();
    assert(i + 2 <= n);
    let lo = *vstd::slice::slice_index_get(b, i) as u64;
    let hi = *vstd::slice::slice_index_get(b, i + 1) as u64;
    lo + 256 * hi
}

/// The little-endian 32-bit value at `i`.
fn read_u32_le(b: &[u8], i: usize) -> (r: u64)
    requires
        i + 4 <= b@.len(),
    ensures
        r == spec_u32_le(b@, i as int),
{
    let n = b.len();
    assert(i + 4 <= n);
    let b0 = *vstd::slice::slice_index_get(b, i) as u64;
    let b1 = *vstd::slice::slice_index_get(b, i + 1) as u64;
    let b2 = *vstd::slice::slice_index_get(b, i + 2) as u64;
    let b3 = *vstd::slice::slice_index_get(b, i + 3) as u64;
    b0 + 256 * b1 + 65536 * b2 + 16777216 * b3
}

/// Whether the four bytes at `i` spell the given chunk id.
fn tag_is(b: &[u8], i: usize, c0: u8, c1: u8, c2: u8, c3: u8) -> (r: bool)
    requires
        i + 4 <= b@.len(),
    ensures
        r == spec_tag_is(b@, i as int, c0, c1, c2, c3),
{
    let n = b.len();
    assert(i + 4 <= n);
    *vstd::slice::slice_index_get(b, i) == c0 && *vstd::slice::slice_index_get(b, i + 1) == c1
        && *vstd::slice::slice_index_get(b, i + 2) == c2 && *vstd::slice::slice_index_get(
        b,
        i + 3,
    ) == c3
}

/// Whether the chunk at `pos` belongs in the list.
fn sf2_entry_ok(kind: Sf2ListKind, b: &[u8], pos: usize) -> (r: bool)
    requires
        pos + 8 <= b@.len(),
    ensures
        r == spec_sf2_entry_ok(kind, b@, pos as int),
{
    let n = b.len();
    assert(pos + 8 <= n);
    let sz = read_u32_le(b, pos + 4);
    match kind {
        Sf2ListKind::Info => {
            ((tag_is(b, pos, 0x69, 0x66, 0x69, 0x6c) || tag_is(b, pos, 0x69, 0x76, 0x65, 0x72))
                && sz == 4) || tag_is(b, pos, 0x69, 0x73, 0x6e, 0x67) || tag_is(
                b,
                pos,
                0x49,
                0x4e,
                0x41,
                0x4d,
            ) || tag_is(b, pos, 0x69, 0x72, 0x6f, 0x6d) || tag_is(b, pos, 0x49, 0x43, 0x52, 0x44)
                || tag_is(b, pos, 0x49, 0x45, 0x4e, 0x47) || tag_is(b, pos, 0x49, 0x50, 0x52, 0x44)
                || tag_is(b, pos, 0x49, 0x43, 0x4f, 0x50) || tag_is(b, pos, 0x49, 0x43, 0x4d, 0x54)
                || tag_is(b, pos, 0x49, 0x53, 0x46, 0x54)
        },
        Sf2ListKind::SampleData => {
            (tag_is(b, pos, 0x73, 0x6d, 0x70, 0x6c) && sz % 2 == 0) || tag_is(
                b,
                pos,
                0x73,
                0x6d,
                0x32,
                0x34,
            )
        },
        Sf2ListKind::Hydra => {
            (tag_is(b, pos, 0x70, 0x68, 0x64, 0x72) && sz % 38 == 0 && sz > 0) || (tag_is(
                b,
                pos,
                0x70,
                0x62,
                0x61,
                0x67,
            ) && sz % 4 == 0 && sz > 0) || tag_is(b, pos, 0x70, 0x6d, 0x6f, 0x64) || (tag_is(
                b,
                pos,
                0x70,
                0x67,
                0x65,
                0x6e,
            ) && sz % 4 == 0 && sz > 0) || (tag_is(b, pos, 0x69, 0x6e, 0x73, 0x74) && sz % 22 == 0
                && sz > 0) || (tag_is(b, pos, 0x69, 0x62, 0x61, 0x67) && sz % 4 == 0 && sz > 0)
                || tag_is(b, pos, 0x69, 0x6d, 0x6f, 0x64) || (tag_is(b, pos, 0x69, 0x67, 0x65, 0x6e)
                && sz % 4 == 0 && sz > 0) || (tag_is(b, pos, 0x73, 0x68, 0x64, 0x72) && sz % 46 == 0
                && sz > 0)
        },
    }
}

/// Checks one LIST chunk at `pos` and hands back the position after it.
fn check_sf2_list(kind: Sf2ListKind, b: &[u8], pos: usize, t0: u8, t1: u8, t2: u8, t3: u8) -> (r:
    Option<usize>)
    requires
        pos <= b@.len(),
    ensures
        match r {
            Some(next) => spec_sf2_list_ok(kind, b@, pos as int, t0, t1, t2, t3) && next == pos + 8
                + spec_u32_le(b@, pos as int + 4) && next <= b@.len(),
            None => !spec_sf2_list_ok(kind, b@, pos as int, t0, t1, t2, t3),
        },
{
    if b.len() - pos < 12 {
        return None;
    }
    if !tag_is(b, pos, 0x4c, 0x49, 0x53, 0x54) {
        return None;
    }
    let sz = read_u32_le(b, pos + 4);
    if sz < 4 || sz > (b.len() - pos - 8) as u64 {
        return None;
    }
    if !tag_is(b, pos + 8, t0, t1, t2, t3) {
        return None;
    }
    let end: usize = pos + 8 + sz as usize;
    let mut cur: usize = pos + 12;
    loop
        invariant
            pos + 12 <= cur <= end <= b@.len(),
            end == pos + 8 + spec_u32_le(b@, pos as int + 4),
            spec_u32_le(b@, pos as int + 4) >= 4,
            spec_tag_is(b@, pos as int, 0x4c, 0x49, 0x53, 0x54),
            spec_tag_is(b@, pos + 8, t0, t1, t2, t3),
            spec_sf2_list_walk(kind, b@, pos + 12, end as int) == spec_sf2_list_walk(
                kind,
                b@,
                cur as int,
                end as int,
            ),
        decreases end - cur,
    {
        if cur == end {
            return Some(end);
        }
        if end - cur < 8 {
            return None;
        }
        if !sf2_entry_ok(kind, b, cur) {
            return None;
        }
        let esz = read_u32_le(b, cur + 4);
        if esz > (end - cur - 8) as u64 {
            return None;
        }
        cur = cur + 8 + esz as usize;
    }
}

/// The data offset and size of the last chunk with the given id.
fn find_last_chunk(b: &[u8], start: usize, end: usize, c0: u8, c1: u8, c2: u8, c3: u8) -> (r:
    Option<(usize, usize)>)
    requires
        start <= end <= b@.len(),
    ensures
        match r {
            Some((off, sz)) => spec_sf2_last_chunk(b@, start as int, end as int, c0, c1, c2, c3)
                == Some((off as int, sz as int)) && off + sz <= end,
            None => spec_sf2_last_chunk(b@, start as int, end as int, c0, c1, c2, c3) is None,
        },
{
    let mut cur: usize = start;
    let mut found: Option<(usize, usize)> = None;
    loop
        invariant
            start <= cur <= end <= b@.len(),
            match found {
                Some((off, sz)) => off + sz <= end,
                None => true,
            },
            spec_sf2_last_chunk(b@, start as int, end as int, c0, c1, c2, c3) == (
            match spec_sf2_last_chunk(b@, cur as int, end as int, c0, c1, c2, c3) {
                Some(x) => Some(x),
                None => match found {
                    Some((off, sz)) => Some((off as int, sz as int)),
                    None => None,
                },
            }),
        ensures
            cur <= end,
            spec_sf2_last_chunk(b@, cur as int, end as int, c0, c1, c2, c3) is None,
            spec_sf2_last_chunk(b@, start as int, end as int, c0, c1, c2, c3) == (match found {
                Some((off, sz)) => Some((off as int, sz as int)),
                None => None::<(int, int)>,
            }),
        decreases end - cur,
    {
        if end - cur < 8 {
            break ;
        }
        let esz = read_u32_le(b, cur + 4);
        if esz > (end - cur - 8) as u64 {
            break ;
        }
        if tag_is(b, cur, c0, c1, c2, c3) {
            found = Some((cur + 8, esz as usize));
        }
        cur = cur + 8 + esz as usize;
    }
    found
}

/// Checks a bag table's generator indices against the generator count.
fn check_sf2_bag(b: &[u8], off: usize, size: usize, gen_count: u64) -> (r: bool)
    requires
        off + size <= b@.len(),
    ensures
        r == spec_sf2_bag_ok(b@, off as int, size as int, gen_count as int),
{
    let len = b.len();
    let n = size / 4;
    let mut k: usize = 0;
    while k < n
        invariant
            n == size / 4,
            off + size <= b@.len(),
            len == b@.len(),
            k <= n,
            forall|j: int|
                0 <= j < k ==> #[trigger] spec_u16_le(b@, off + 4 * j) <= gen_count,
        decreases n - k,
    {
        proof {
            assert(4 * k + 4 <= size) by (nonlinear_arith)
                requires
                    k < n,
                    n == size / 4,
                    0 <= k,
                    0 <= size,
            ;
        }
        if read_u16_le(b, off + 4 * k) > gen_count {
            return false;
        }
        k += 1;
    }
    true
}

/// Checks a header table's zone start indices against the bag count.
fn check_sf2_hdr(b: &[u8], off: usize, size: usize, rec: usize, field: usize, bag_count: u64) -> (r:
    bool)
    requires
        off + size <= b@.len(),
        rec >= 1,
        field + 2 <= rec,
        bag_count >= 1,
    ensures
        r == spec_sf2_hdr_ok(b@, off as int, size as int, rec as int, field as int,
        bag_count as int),
{
    let len = b.len();
    let n = size / rec;
    let mut k: usize = 0;
    while k < n
        invariant
            n == size / rec,
            off + size <= b@.len(),
            len == b@.len(),
            rec >= 1,
            field + 2 <= rec,
            bag_count >= 1,
            k <= n,
            forall|j: int|
                0 <= j < k ==> #[trigger] spec_u16_le(b@, off + rec * j + field) <= bag_count
                    - 1,
        decreases n - k,
    {
        proof {
            assert(rec * k + rec <= size) by (nonlinear_arith)
                requires
                    k < n,
                    n == size / rec,
                    rec >= 1,
                    0 <= k,
                    0 <= size,
            ;
        }
        if read_u16_le(b, off + rec * k + field) > bag_count - 1 {
            return false;
        }
        k += 1;
    }
    true
}

/// Checks a sample-header table's address dwords against the overflow
/// bound.
fn check_sf2_shdr(b: &[u8], off: usize, size: usize) -> (r: bool)
    requires
        off + size <= b@.len(),
    ensures
        r == spec_sf2_shdr_ok(b@, off as int, size as int),
{
    let len = b.len();
    let n = size / 46;
    let mut k: usize = 0;
    while k < n
        invariant
            n == size / 46,
            off + size <= b@.len(),
            len == b@.len(),
            k <= n,
            forall|j: int|
                0 <= j < k ==> #[trigger] spec_sf2_shdr_record_ok(b@, off + 46 * j),
        decreases n - k,
    {
        proof {
            assert(46 * k + 46 <= size) by (nonlinear_arith)
                requires
                    k < n,
                    n == size / 46,
                    0 <= k,
                    0 <= size,
            ;
        }
        let rec = off + 46 * k;
        if read_u32_le(b, rec + 20) >= 0x40000000 || read_u32_le(b, rec + 24) >= 0x40000000
            || read_u32_le(b, rec + 28) >= 0x40000000 || read_u32_le(b, rec + 32) >= 0x40000000 {
            proof {
                assert(!spec_sf2_shdr_record_ok(b@, off + 46 * (k as int)));
            }
            return false;
        }
        k += 1;
    }
    true
}

/// Whether the binary is structurally safe to hand to the parser; see
/// [`spec_sf2_load_safe`].
pub fn sf2_load_safe(bytes: &[u8]) -> (r: bool)
    ensures
        r == spec_sf2_load_safe(bytes@),
{
    if bytes.len() < 12 {
        return false;
    }
    if !tag_is(bytes, 0, 0x52, 0x49, 0x46, 0x46) || !tag_is(bytes, 8, 0x73, 0x66, 0x62, 0x6b) {
        return false;
    }
    let sdta_pos = match check_sf2_list(Sf2ListKind::Info, bytes, 12, 0x49, 0x4e, 0x46, 0x4f) {
        Some(p) => p,
        None => {
            return false;
        },
    };
    let pdta_pos = match check_sf2_list(
        Sf2ListKind::SampleData,
        bytes,
        sdta_pos,
        0x73,
        0x64,
        0x74,
        0x61,
    ) {
        Some(p) => p,
        None => {
            return false;
        },
    };
    let file_end = match check_sf2_list(
        Sf2ListKind::Hydra,
        bytes,
        pdta_pos,
        0x70,
        0x64,
        0x74,
        0x61,
    ) {
        Some(p) => p,
        None => {
            return false;
        },
    };
    let start = pdta_pos + 12;
    let phdr = find_last_chunk(bytes, start, file_end, 0x70, 0x68, 0x64, 0x72);
    let pbag = find_last_chunk(bytes, start, file_end, 0x70, 0x62, 0x61, 0x67);
    let pgen = find_last_chunk(bytes, start, file_end, 0x70, 0x67, 0x65, 0x6e);
    let inst = find_last_chunk(bytes, start, file_end, 0x69, 0x6e, 0x73, 0x74);
    let ibag = find_last_chunk(bytes, start, file_end, 0x69, 0x62, 0x61, 0x67);
    let igen = find_last_chunk(bytes, start, file_end, 0x69, 0x67, 0x65, 0x6e);
    let shdr_ok = match find_last_chunk(bytes, start, file_end, 0x73, 0x68, 0x64, 0x72) {
        Some((shdr_off, shdr_sz)) => check_sf2_shdr(bytes, shdr_off, shdr_sz),
        None => true,
    };
    if !shdr_ok {
        return false;
    }
    match (phdr, pbag, pgen, inst, ibag, igen) {
        (
            Some((phdr_off, phdr_sz)),
            Some((pbag_off, pbag_sz)),
            Some((pgen_off, pgen_sz)),
            Some((inst_off, inst_sz)),
            Some((ibag_off, ibag_sz)),
            Some((igen_off, igen_sz)),
        ) => {
            if pbag_sz < 4 || pgen_sz < 4 || ibag_sz < 4 || igen_sz < 4 {
                return false;
            }
            check_sf2_bag(bytes, pbag_off, pbag_sz, (pgen_sz / 4 - 1) as u64) && check_sf2_bag(
                bytes,
                ibag_off,
                ibag_sz,
                (igen_sz / 4 - 1) as u64,
            ) && check_sf2_hdr(bytes, phdr_off, phdr_sz, 38, 24, (pbag_sz / 4) as u64)
                && check_sf2_hdr(bytes, inst_off, inst_sz, 22, 20, (ibag_sz / 4) as u64)
        },
        _ => false,
    }
}

/// Relies on SoundFont::new: parses an SF2 binary from a byte stream.
/// The parse reads the bytes alone, so its outcome is a function of
/// them: the names above say exactly when it accepts and what it
/// builds, and the accessors below read the result. The requires keeps
/// out byte patterns on which the parser's unchecked index arithmetic
/// or its sanity check's sample-address sums could panic;
/// [`sf2_load_safe`] decides it.
#[verifier::external_body]
fn parse_soundfont(bytes: &[u8]) -> (r: Result<rustysynth::SoundFont, rustysynth::SoundFontError>)
    requires
        spec_sf2_load_safe(bytes@),
    ensures
        r is Ok <==> spec_sf2_accepted(bytes@),
        r matches Ok(sf) ==> sf == spec_sf2_parsed(bytes@),
{
    rustysynth::SoundFont::new(&mut std::io::Cursor::new(bytes))
}

/// Relies on SoundFont::get_presets: the presets of the SoundFont.
#[verifier::external_body]
fn sf_presets(sf: &rustysynth::SoundFont) -> (r: &[rustysynth::Preset])
    ensures
        r@ == spec_sf_presets(*sf),
{
    sf.get_presets()
}

/// Relies on SoundFont::get_instruments: the instruments of the SoundFont.
#[verifier::external_body]
fn sf_instruments(sf: &rustysynth::SoundFont) -> (r: &[rustysynth::Instrument])
    ensures
        r@ == spec_sf_instruments(*sf),
{
    sf.get_instruments()
}

/// Relies on SoundFont::get_sample_headers: the sample headers of the
/// SoundFont.
#[verifier::external_body]
fn sf_sample_headers(sf: &rustysynth::SoundFont) -> (r: &[rustysynth::SampleHeader])
    ensures
        r@ == spec_sf_sample_headers(*sf),
{
    sf.get_sample_headers()
}

/// Relies on SoundFont::get_wave_data: the raw 16-bit wave samples all
/// sample headers point into.
#[verifier::external_body]
fn sf_wave_data(sf: &rustysynth::SoundFont) -> (r: &[i16])
    ensures
        r@ == spec_sf_wave_data(*sf),
{
    sf.get_wave_data()
}

/// Relies on Preset::get_bank_number.
#[verifier::external_body]
fn preset_bank_number(p: &rustysynth::Preset) -> (r: i32)
    ensures
        r == spec_preset_bank_number(*p),
{
    p.get_bank_number()
}

/// Relies on Preset::get_patch_number.
#[verifier::external_body]
fn preset_patch_number(p: &rustysynth::Preset) -> (r: i32)
    ensures
        r == spec_preset_patch_number(*p),
{
    p.get_patch_number()
}

/// Relies on Preset::get_regions: the preset's zones.
#[verifier::external_body]
fn preset_regions(p: &rustysynth::Preset) -> (r: &[rustysynth::PresetRegion])
    ensures
        r@ == spec_preset_regions(*p),
{
    p.get_regions()
}

/// Relies on PresetRegion::get_key_range_start.
#[verifier::external_body]
fn pr_key_lo(r: &rustysynth::PresetRegion) -> (k: i32)
    ensures
        k == spec_pr_key_lo(*r),
{
    r.get_key_range_start()
}

/// Relies on PresetRegion::get_key_range_end.
#[verifier::external_body]
fn pr_key_hi(r: &rustysynth::PresetRegion) -> (k: i32)
    ensures
        k == spec_pr_key_hi(*r),
{
    r.get_key_range_end()
}

/// Relies on PresetRegion::get_velocity_range_start.
#[verifier::external_body]
fn pr_vel_lo(r: &rustysynth::PresetRegion) -> (k: i32)
    ensures
        k == spec_pr_vel_lo(*r),
{
    r.get_velocity_range_start()
}

/// Relies on PresetRegion::get_velocity_range_end.
#[verifier::external_body]
fn pr_vel_hi(r: &rustysynth::PresetRegion) -> (k: i32)
    ensures
        k == spec_pr_vel_hi(*r),
{
    r.get_velocity_range_end()
}

/// Relies on PresetRegion::get_instrument_id: the index of the instrument
/// this zone points at.
#[verifier::external_body]
fn pr_instrument_id(r: &rustysynth::PresetRegion) -> (k: usize)
    ensures
        k == spec_pr_instrument_id(*r),
{
    r.get_instrument_id()
}

/// Relies on Instrument::get_regions: the instrument's zones.
#[verifier::external_body]
fn instrument_regions(i: &rustysynth::Instrument) -> (r: &[rustysynth::InstrumentRegion])
    ensures
        r@ == spec_instrument_regions(*i),
{
    i.get_regions()
}

/// Relies on InstrumentRegion::get_key_range_start.
#[verifier::external_body]
fn ir_key_lo(r: &rustysynth::InstrumentRegion) -> (k: i32)
    ensures
        k == spec_ir_key_lo(*r),
{
    r.get_key_range_start()
}

/// Relies on InstrumentRegion::get_key_range_end.
#[verifier::external_body]
fn ir_key_hi(r: &rustysynth::InstrumentRegion) -> (k: i32)
    ensures
        k == spec_ir_key_hi(*r),
{
    r.get_key_range_end()
}

/// Relies on InstrumentRegion::get_velocity_range_start.
#[verifier::external_body]
fn ir_vel_lo(r: &rustysynth::InstrumentRegion) -> (k: i32)
    ensures
        k == spec_ir_vel_lo(*r),
{
    r.get_velocity_range_start()
}

/// Relies on InstrumentRegion::get_velocity_range_end.
#[verifier::external_body]
fn ir_vel_hi(r: &rustysynth::InstrumentRegion) -> (k: i32)
    ensures
        k == spec_ir_vel_hi(*r),
{
    r.get_velocity_range_end()
}

/// Relies on InstrumentRegion::get_sample_id: the index of the sample
/// header this zone points at.
#[verifier::external_body]
fn ir_sample_id(r: &rustysynth::InstrumentRegion) -> (k: usize)
    ensures
        k == spec_ir_sample_id(*r),
{
    r.get_sample_id()
}

/// Relies on SampleHeader::get_start: the first wave index of the sample.
#[verifier::external_body]
fn sh_start(h: &rustysynth::SampleHeader) -> (k: i32)
    ensures
        k == spec_sh_start(*h),
{
    h.get_start()
}

/// Relies on SampleHeader::get_end: the wave index just past the sample.
#[verifier::external_body]
fn sh_end(h: &rustysynth::SampleHeader) -> (k: i32)
    ensures
        k == spec_sh_end(*h),
{
    h.get_end()
}

/// Relies on SampleHeader::get_original_pitch, which widens a byte, so the
/// result lies in 0..=255.
#[verifier::external_body]
fn sh_original_pitch(h: &rustysynth::SampleHeader) -> (k: i32)
    ensures
        k == spec_sh_original_pitch(*h),
        0 <= k <= 255,
{
    h.get_original_pitch()
}

/// Relies on SampleHeader::get_pitch_correction, which widens a signed
/// byte, so the result lies in -128..=127.
#[verifier::external_body]
fn sh_pitch_correction(h: &rustysynth::SampleHeader) -> (k: i32)
    ensures
        k == spec_sh_pitch_correction(*h),
        -128 <= k <= 127,
{
    h.get_pitch_correction()
}

/// Relies on SampleHeader::get_sample_type, which widens an unsigned
/// 16-bit word, so the result lies in 0..=65535.
#[verifier::external_body]
fn sh_sample_type(h: &rustysynth::SampleHeader) -> (k: i32)
    ensures
        k == spec_sh_sample_type(*h),
        0 <= k <= 65535,
{
    h.get_sample_type()
}

// ---------------------------------------------------------------------
// The bank's own plain data.
// ---------------------------------------------------------------------

/// One zone: a key range, a velocity range, and the index of what it
/// points at (an instrument for preset zones, a sample header for
/// instrument zones).
#[derive(Clone, Copy, Debug, PartialEq, Eq, Structural)]
pub struct ZoneData {
    pub key_lo: i32,
    pub key_hi: i32,
    pub vel_lo: i32,
    pub vel_hi: i32,
    pub target: usize,
}

/// One preset: its bank and patch numbers and its zones.
#[derive(Clone, Debug)]
pub struct PresetData {
    pub bank_number: i32,
    pub patch_number: i32,
    pub zones: Vec<ZoneData>,
}

/// One instrument: its zones.
#[derive(Clone, Debug)]
pub struct InstrumentData {
    pub zones: Vec<ZoneData>,
}

/// One sample header: wave bounds, recorded pitch, stereo kind.
#[derive(Clone, Copy, Debug, PartialEq, Eq, Structural)]
pub struct SampleData {
    pub start: i32,
    pub end: i32,
    pub sample_type: i32,
    pub original_pitch: i32,
    pub pitch_correction: i32,
}

/// The failure of loading a SoundFont binary.
#[derive(Clone, Copy, Debug, PartialEq, Eq, Structural, Default)]
pub struct SoundFontLoadError;

/// The bank: the whole preset hierarchy and the wave data, as plain owned
/// values.
#[derive(Clone, Debug)]
pub struct SoundFontBank {
    pub presets: Vec<PresetData>,
    pub instruments: Vec<InstrumentData>,
    pub samples: Vec<SampleData>,
    pub wave: Vec<i16>,
}

/// Whether a zone covers the given key and velocity.
pub open spec fn spec_zone_contains(z: ZoneData, key: i32, vel: i32) -> bool {
    z.key_lo <= key <= z.key_hi && z.vel_lo <= vel <= z.vel_hi
}

/// The index of the preset with the given bank and patch numbers; with
/// duplicates the last one wins, as an index built by insertion would have
/// it.
pub open spec fn spec_find_preset(ps: Seq<PresetData>, bank: i32, patch: i32) -> Option<int>
    decreases ps.len(),
{
    if ps.len() == 0 {
        None
    } else if ps.last().bank_number == bank && ps.last().patch_number == patch {
        Some(ps.len() - 1)
    } else {
        spec_find_preset(ps.drop_last(), bank, patch)
    }
}

/// The sample headers an instrument's zones, from `j` on, resolve for the
/// request; a zone whose sample index is out of range resolves nothing.
pub open spec fn spec_instrument_samples(
    zones: Seq<ZoneData>,
    j: int,
    samples: Seq<SampleData>,
    key: i32,
    vel: i32,
) -> Seq<SampleData>
    decreases zones.len() - j,
{
    if j < 0 || j >= zones.len() {
        Seq::empty()
    } else {
        let rest = spec_instrument_samples(zones, j + 1, samples, key, vel);
        if spec_zone_contains(zones[j], key, vel) && zones[j].target < samples.len() {
            seq![samples[zones[j].target as int]] + rest
        } else {
            rest
        }
    }
}

/// The sample headers a preset's zones, from `j` on, resolve for the
/// request: each matching preset zone filters its instrument's zones the
/// same way. A zone whose instrument index is out of range resolves
/// nothing.
pub open spec fn spec_preset_samples(
    zones: Seq<ZoneData>,
    j: int,
    instruments: Seq<InstrumentData>,
    samples: Seq<SampleData>,
    key: i32,
    vel: i32,
) -> Seq<SampleData>
    decreases zones.len() - j,
{
    if j < 0 || j >= zones.len() {
        Seq::empty()
    } else {
        let rest = spec_preset_samples(zones, j + 1, instruments, samples, key, vel);
        if spec_zone_contains(zones[j], key, vel) && zones[j].target < instruments.len() {
            spec_instrument_samples(
                instruments[zones[j].target as int].zones@,
                0,
                samples,
                key,
                vel,
            ) + rest
        } else {
            rest
        }
    }
}

/// What a bank lookup returns: nothing at all without a preset, else the
/// doubly filtered sample headers.
pub open spec fn spec_lookup(
    bank: SoundFontBank,
    note: i32,
    velocity: i32,
    bank_number: u8,
    patch_number: u8,
) -> Option<Seq<SampleData>> {
    match spec_find_preset(bank.presets@, bank_number as i32, patch_number as i32) {
        None => None,
        Some(pi) => Some(
            spec_preset_samples(
                bank.presets@[pi].zones@,
                0,
                bank.instruments@,
                bank.samples@,
                note,
                velocity,
            ),
        ),
    }
}

// ---------------------------------------------------------------------
// Extraction: the plain data mirrors the SoundFont's accessors.
// ---------------------------------------------------------------------

/// Whether a zone record carries a preset region's ranges and target.
pub open spec fn spec_zone_matches_pr(z: ZoneData, r: rustysynth::PresetRegion) -> bool {
    &&& z.key_lo == spec_pr_key_lo(r)
    &&& z.key_hi == spec_pr_key_hi(r)
    &&& z.vel_lo == spec_pr_vel_lo(r)
    &&& z.vel_hi == spec_pr_vel_hi(r)
    &&& z.target == spec_pr_instrument_id(r)
}

/// Whether a zone record carries an instrument region's ranges and target.
pub open spec fn spec_zone_matches_ir(z: ZoneData, r: rustysynth::InstrumentRegion) -> bool {
    &&& z.key_lo == spec_ir_key_lo(r)
    &&& z.key_hi == spec_ir_key_hi(r)
    &&& z.vel_lo == spec_ir_vel_lo(r)
    &&& z.vel_hi == spec_ir_vel_hi(r)
    &&& z.target == spec_ir_sample_id(r)
}

/// Whether a preset record carries a preset's numbers and zones.
pub open spec fn spec_preset_matches(pd: PresetData, p: rustysynth::Preset) -> bool {
    &&& pd.bank_number == spec_preset_bank_number(p)
    &&& pd.patch_number == spec_preset_patch_number(p)
    &&& pd.zones@.len() == spec_preset_regions(p).len()
    &&& forall|j: int|
        0 <= j < pd.zones@.len() ==> spec_zone_matches_pr(
            #[trigger] pd.zones@[j],
            spec_preset_regions(p)[j],
        )
}

/// Whether an instrument record carries an instrument's zones.
pub open spec fn spec_instrument_matches(d: InstrumentData, i: rustysynth::Instrument) -> bool {
    &&& d.zones@.len() == spec_instrument_regions(i).len()
    &&& forall|j: int|
        0 <= j < d.zones@.len() ==> spec_zone_matches_ir(
            #[trigger] d.zones@[j],
            spec_instrument_regions(i)[j],
        )
}

/// Whether a sample record carries a sample header's fields.
pub open spec fn spec_sample_matches(sd: SampleData, h: rustysynth::SampleHeader) -> bool {
    &&& sd.start == spec_sh_start(h)
    &&& sd.end == spec_sh_end(h)
    &&& sd.sample_type == spec_sh_sample_type(h)
    &&& sd.original_pitch == spec_sh_original_pitch(h)
    &&& sd.pitch_correction == spec_sh_pitch_correction(h)
}

/// Whether the bank is the faithful copy of the SoundFont's hierarchy.
pub open spec fn spec_bank_matches(b: SoundFontBank, sf: rustysynth::SoundFont) -> bool {
    &&& b.wave@ == spec_sf_wave_data(sf)
    &&& b.presets@.len() == spec_sf_presets(sf).len()
    &&& forall|i: int|
        0 <= i < b.presets@.len() ==> spec_preset_matches(
            #[trigger] b.presets@[i],
            spec_sf_presets(sf)[i],
        )
    &&& b.instruments@.len() == spec_sf_instruments(sf).len()
    &&& forall|i: int|
        0 <= i < b.instruments@.len() ==> spec_instrument_matches(
            #[trigger] b.instruments@[i],
            spec_sf_instruments(sf)[i],
        )
    &&& b.samples@.len() == spec_sf_sample_headers(sf).len()
    &&& forall|i: int|
        0 <= i < b.samples@.len() ==> spec_sample_matches(
            #[trigger] b.samples@[i],
            spec_sf_sample_headers(sf)[i],
        )
}

fn zones_of_preset(p: &rustysynth::Preset) -> (out: Vec<ZoneData>)
    ensures
        out@.len() == spec_preset_regions(*p).len(),
        forall|j: int|
            0 <= j < out@.len() ==> spec_zone_matches_pr(
                #[trigger] out@[j],
                spec_preset_regions(*p)[j],
            ),
{
    let regions = preset_regions(p);
    let mut out: Vec<ZoneData> = Vec::new();
    let mut j: usize = 0;
    while j < regions.len()
        invariant
            regions@ == spec_preset_regions(*p),
            j <= regions@.len(),
            out@.len() == j,
            forall|k: int|
                0 <= k < j ==> spec_zone_matches_pr(#[trigger] out@[k], regions@[k]),
        decreases regions@.len() - j,
    {
        let r = vstd::slice::slice_index_get(regions, j);
        out.push(
            ZoneData {
                key_lo: pr_key_lo(r),
                key_hi: pr_key_hi(r),
                vel_lo: pr_vel_lo(r),
                vel_hi: pr_vel_hi(r),
                target: pr_instrument_id(r),
            },
        );
        j += 1;
    }
    out
}

fn zones_of_instrument(i: &rustysynth::Instrument) -> (out: Vec<ZoneData>)
    ensures
        out@.len() == spec_instrument_regions(*i).len(),
        forall|j: int|
            0 <= j < out@.len() ==> spec_zone_matches_ir(
                #[trigger] out@[j],
                spec_instrument_regions(*i)[j],
            ),
{
    let regions = instrument_regions(i);
    let mut out: Vec<ZoneData> = Vec::new();
    let mut j: usize = 0;
    while j < regions.len()
        invariant
            regions@ == spec_instrument_regions(*i),
            j <= regions@.len(),
            out@.len() == j,
            forall|k: int|
                0 <= k < j ==> spec_zone_matches_ir(#[trigger] out@[k], regions@[k]),
        decreases regions@.len() - j,
    {
        let r = vstd::slice::slice_index_get(regions, j);
        out.push(
            ZoneData {
                key_lo: ir_key_lo(r),
                key_hi: ir_key_hi(r),
                vel_lo: ir_vel_lo(r),
                vel_hi: ir_vel_hi(r),
                target: ir_sample_id(r),
            },
        );
        j += 1;
    }
    out
}

impl SoundFontBank {
    /// Copies the whole preset hierarchy and the wave data of a SoundFont
    /// into plain owned data.
    pub fn new(soundfont: &rustysynth::SoundFont) -> (r: SoundFontBank)
        ensures
            spec_bank_matches(r, *soundfont),
    {
        let sf_ps = sf_presets(soundfont);
        let mut presets: Vec<PresetData> = Vec::new();
        let mut i: usize = 0;
        while i < sf_ps.len()
            invariant
                sf_ps@ == spec_sf_presets(*soundfont),
                i <= sf_ps@.len(),
                presets@.len() == i,
                forall|k: int|
                    0 <= k < i ==> spec_preset_matches(#[trigger] presets@[k], sf_ps@[k]),
            decreases sf_ps@.len() - i,
        {
            let p = vstd::slice::slice_index_get(sf_ps, i);
            presets.push(
                PresetData {
                    bank_number: preset_bank_number(p),
                    patch_number: preset_patch_number(p),
                    zones: zones_of_preset(p),
                },
            );
            i += 1;
        }
        let sf_is = sf_instruments(soundfont);
        let mut instruments: Vec<InstrumentData> = Vec::new();
        let mut i: usize = 0;
        while i < sf_is.len()
            invariant
                sf_is@ == spec_sf_instruments(*soundfont),
                i <= sf_is@.len(),
                instruments@.len() == i,
                forall|k: int|
                    0 <= k < i ==> spec_instrument_matches(#[trigger] instruments@[k], sf_is@[k]),
            decreases sf_is@.len() - i,
        {
            let p = vstd::slice::slice_index_get(sf_is, i);
            instruments.push(InstrumentData { zones: zones_of_instrument(p) });
            i += 1;
        }
        let sf_hs = sf_sample_headers(soundfont);
        let mut samples: Vec<SampleData> = Vec::new();
        let mut i: usize = 0;
        while i < sf_hs.len()
            invariant
                sf_hs@ == spec_sf_sample_headers(*soundfont),
                i <= sf_hs@.len(),
                samples@.len() == i,
                forall|k: int|
                    0 <= k < i ==> spec_sample_matches(#[trigger] samples@[k], sf_hs@[k]),
            decreases sf_hs@.len() - i,
        {
            let h = vstd::slice::slice_index_get(sf_hs, i);
            samples.push(
                SampleData {
                    start: sh_start(h),
                    end: sh_end(h),
                    sample_type: sh_sample_type(h),
                    original_pitch: sh_original_pitch(h),
                    pitch_correction: sh_pitch_correction(h),
                },
            );
            i += 1;
        }
        let wave = vstd::slice::slice_to_vec(sf_wave_data(soundfont));
        SoundFontBank { presets, instruments, samples, wave }
    }

    /// Loads a SoundFont binary and builds the bank from it: success
    /// exactly when the bytes pass the structural pre-check and the
    /// parser accepts them, and the bank is then the faithful copy of
    /// the parsed SoundFont. A rejected binary yields an error, never a
    /// partial bank.
    pub fn from_bytes(bytes: &[u8]) -> (r: Result<SoundFontBank, SoundFontLoadError>)
        ensures
            r is Ok <==> spec_sf2_load_safe(bytes@) && spec_sf2_accepted(bytes@),
            r matches Ok(b) ==> spec_bank_matches(b, spec_sf2_parsed(bytes@)),
    {
        if !sf2_load_safe(bytes) {
            return Err(SoundFontLoadError);
        }
        match parse_soundfont(bytes) {
            Ok(sf) => Ok(SoundFontBank::new(&sf)),
            Err(_) => Err(SoundFontLoadError),
        }
    }

    /// The index of the preset for a bank and patch number, if any; with
    /// duplicates the last one wins.
    pub fn find_preset(&self, bank_number: u8, patch_number: u8) -> (r: Option<usize>)
        ensures
            match r {
                Some(i) => spec_find_preset(
                    self.presets@,
                    bank_number as i32,
                    patch_number as i32,
                ) == Some(i as int) && i < self.presets@.len(),
                None => spec_find_preset(self.presets@, bank_number as i32, patch_number as i32)
                    is None,
            },
    {
        let bank = bank_number as i32;
        let patch = patch_number as i32;
        let mut i = self.presets.len();
        proof {
            assert(self.presets@.take(i as int) =~= self.presets@);
        }
        while i > 0
            invariant
                i <= self.presets@.len(),
                bank == bank_number as i32,
                patch == patch_number as i32,
                spec_find_preset(self.presets@, bank, patch) == spec_find_preset(
                    self.presets@.take(i as int),
                    bank,
                    patch,
                ),
            decreases i,
        {
            i -= 1;
            let p = &self.presets[i];
            proof {
                assert(self.presets@.take(i + 1).last() == self.presets@[i as int]);
                assert(self.presets@.take(i + 1).drop_last() =~= self.presets@.take(i as int));
            }
            if p.bank_number == bank && p.patch_number == patch {
                assert(spec_find_preset(self.presets@.take(i + 1), bank, patch) == Some(i as int));
                return Some(i);
            }
        }
        proof {
            assert(self.presets@.take(0) =~= Seq::<PresetData>::empty());
        }
        None
    }

    /// Resolves a request to the sample headers it should voice: the
    /// preset's zones are filtered by key and velocity, each match leads
    /// to an instrument whose zones are filtered the same way, and every
    /// surviving zone contributes its sample header. Without a preset for
    /// the bank and patch there is no result at all — and no error.
    pub fn get_sample_headers(
        &self,
        note: i32,
        velocity: i32,
        bank_number: u8,
        patch_number: u8,
    ) -> (r: Option<Vec<SampleData>>)
        ensures
            match r {
                Some(v) => spec_lookup(*self, note, velocity, bank_number, patch_number) == Some(
                    v@,
                ),
                None => spec_lookup(*self, note, velocity, bank_number, patch_number) is None,
            },
    {
        let pi = match self.find_preset(bank_number, patch_number) {
            Some(pi) => pi,
            None => {
                return None;
            },
        };
        let zones = &self.presets[pi].zones;
        let mut out: Vec<SampleData> = Vec::new();
        let ghost full = spec_preset_samples(
            zones@,
            0,
            self.instruments@,
            self.samples@,
            note,
            velocity,
        );
        let mut j: usize = 0;
        while j < zones.len()
            invariant
                zones@ == self.presets@[pi as int].zones@,
                pi < self.presets@.len(),
                j <= zones@.len(),
                full == spec_preset_samples(
                    zones@,
                    0,
                    self.instruments@,
                    self.samples@,
                    note,
                    velocity,
                ),
                out@ + spec_preset_samples(
                    zones@,
                    j as int,
                    self.instruments@,
                    self.samples@,
                    note,
                    velocity,
                ) == full,
            decreases zones@.len() - j,
        {
            let z = zones[j];
            if z.key_lo <= note && note <= z.key_hi && z.vel_lo <= velocity && velocity
                <= z.vel_hi && z.target < self.instruments.len() {
                let izones = &self.instruments[z.target].zones;
                let ghost inner_full = spec_instrument_samples(
                    izones@,
                    0,
                    self.samples@,
                    note,
                    velocity,
                );
                let mut k: usize = 0;
                while k < izones.len()
                    invariant
                        izones@ == self.instruments@[zones@[j as int].target as int].zones@,
                        zones@ == self.presets@[pi as int].zones@,
                        j < zones@.len(),
                        zones@[j as int].target < self.instruments@.len(),
                        k <= izones@.len(),
                        inner_full == spec_instrument_samples(
                            izones@,
                            0,
                            self.samples@,
                            note,
                            velocity,
                        ),
                        out@ + spec_instrument_samples(
                            izones@,
                            k as int,
                            self.samples@,
                            note,
                            velocity,
                        ) + spec_preset_samples(
                            zones@,
                            j + 1,
                            self.instruments@,
                            self.samples@,
                            note,
                            velocity,
                        ) == full,
                    decreases izones@.len() - k,
                {
                    let iz = izones[k];
                    if iz.key_lo <= note && note <= iz.key_hi && iz.vel_lo <= velocity && velocity
                        <= iz.vel_hi && iz.target < self.samples.len() {
                        proof {
                            assert((out@.push(self.samples@[iz.target as int])
                                + spec_instrument_samples(
                                izones@,
                                k + 1,
                                self.samples@,
                                note,
                                velocity,
                            )) =~= (out@ + (seq![self.samples@[iz.target as int]]
                                + spec_instrument_samples(
                                izones@,
                                k + 1,
                                self.samples@,
                                note,
                                velocity,
                            ))));
                        }
                        out.push(self.samples[iz.target]);
                    }
                    k += 1;
                }
            }
            j += 1;
        }
        proof {
            assert(out@ + Seq::<SampleData>::empty() =~= out@);
        }
        Some(out)
    }
}

} // verus!
