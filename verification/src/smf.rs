//! Parsing of standard MIDI file bytes.
//!
//! A file is a row of chunks, each a four-byte id and a big-endian length.
//! The header chunk gives the division (ticks per beat); each track chunk
//! holds events, every one prefixed by a variable-length delta time.
//! Channel messages map to note events, the tempo meta event to a tempo
//! change, and everything else is dropped, its delta time still consumed.
//! A file without a header chunk, with an SMPTE division, with a truncated
//! chunk or with malformed event bytes is rejected whole.
//!
//! The whole grammar is written out a second time as specification
//! functions over byte sequences; the executable parser returns `Ok`
//! exactly when the specification parser accepts, and with the same value.

use crate::fixed::{spec_sat_add, FP_ONE};
use crate::midi::{
    spec_merge, spec_times_sorted, spec_track_views, MidiEvent, MidiFile, MidiMetaEvent,
    MidiTrack, MidiTrackAccumulateEvent, MICROS_PER_MINUTE,
};
use vstd::prelude::*;
use vstd::slice::slice_subrange;

verus! {

/// Why a MIDI file was rejected.
#[derive(Clone, Copy, Debug, PartialEq, Eq, Structural)]
pub enum MidiFileError {
    /// No header chunk anywhere in the file.
    MissingHeader,
    /// The header asks for an SMPTE division, which is not supported.
    InvalidDivision,
    /// A chunk reaches past the end of the file, or a header chunk is too
    /// short.
    TruncatedChunk,
    /// A track's event bytes are malformed.
    InvalidTrackData,
}

/// A variable-length quantity: up to `rem` further bytes, seven value bits
/// each, big-endian; the high bit marks continuation. Yields the value and
/// the position after it.
pub open spec fn spec_vlq(b: Seq<u8>, pos: int, acc: int, rem: int) -> Option<(u32, int)>
    decreases rem,
{
    if pos < 0 || pos >= b.len() || rem <= 0 {
        None
    } else {
        let v = acc * 128 + (b[pos] % 128);
        if b[pos] < 128 {
            Some((v as u32, pos + 1))
        } else {
            spec_vlq(b, pos + 1, v, rem - 1)
        }
    }
}

/// A variable-length quantity stops inside the buffer, after at least one
/// byte.
pub proof fn lemma_vlq_bounds(b: Seq<u8>, pos: int, acc: int, rem: int)
    ensures
        spec_vlq(b, pos, acc, rem) matches Some(r) ==> pos < r.1 <= b.len(),
    decreases rem,
{
    if 0 <= pos < b.len() && rem > 0 {
        lemma_vlq_bounds(b, pos + 1, acc * 128 + (b[pos] % 128), rem - 1);
    }
}

/// The tempo, in Q32.32 beats per minute, that a tempo meta event with the
/// given microseconds-per-beat value sets.
pub open spec fn spec_bpm_of_microseconds(microseconds_per_beat: int) -> u64 {
    (MICROS_PER_MINUTE * FP_ONE / microseconds_per_beat) as u64
}

/// The note event a channel message compiles to; messages other than note
/// on and note off are recognized but yield nothing.
pub open spec fn spec_channel_event(status: u8, d1: u8, d2: u8) -> Option<MidiEvent> {
    if status < 0x90 {
        Some(MidiEvent::NoteOff { channel: (status % 16) as u8, note: d1 })
    } else if status < 0xa0 {
        Some(MidiEvent::NoteOn { channel: (status % 16) as u8, note: d1, velocity: d2 })
    } else {
        None
    }
}

/// How many data bytes a channel message with this status byte carries.
pub open spec fn spec_data_len(status: u8) -> int {
    if 0xc0 <= status < 0xe0 {
        1
    } else {
        2
    }
}

/// One event at `pos` (after its delta time): the compiled event if the
/// bytes carry one, the position after the event, and the running status
/// for the next event. `None` means the bytes are malformed.
pub open spec fn spec_event_step(b: Seq<u8>, pos: int, running: u8) -> Option<
    (Option<MidiEvent>, int, u8),
> {
    if pos < 0 || pos >= b.len() {
        None
    } else {
        let first = b[pos];
        if first == 0xf0 || first == 0xf7 {
            // system exclusive: length then payload, all skipped
            match spec_vlq(b, pos + 1, 0, 4) {
                Some((len, p)) => if p + len <= b.len() {
                    Some((None, p + len, 0))
                } else {
                    None
                },
                None => None,
            }
        } else if first == 0xff {
            // meta event: type, length, payload
            if pos + 1 >= b.len() {
                None
            } else {
                let ty = b[pos + 1];
                match spec_vlq(b, pos + 2, 0, 4) {
                    Some((len, p)) => if p + len <= b.len() {
                        if ty == 0x51 && len == 3 {
                            let microseconds = b[p] * 65536 + b[p + 1] * 256 + b[p + 2];
                            if microseconds > 0 {
                                Some(
                                    (
                                        Some(
                                            MidiEvent::SetTempo {
                                                beats_per_minute: spec_bpm_of_microseconds(
                                                    microseconds,
                                                ),
                                            },
                                        ),
                                        p + len,
                                        0,
                                    ),
                                )
                            } else {
                                Some((None, p + len, 0))
                            }
                        } else {
                            Some((None, p + len, 0))
                        }
                    } else {
                        None
                    },
                    None => None,
                }
            }
        } else if first >= 0xf1 {
            // other system messages do not belong in a file
            None
        } else {
            let has_status = first >= 0x80;
            if !has_status && running < 0x80 {
                None
            } else {
                let status = if has_status {
                    first
                } else {
                    running
                };
                let dpos = if has_status {
                    pos + 1
                } else {
                    pos
                };
                let dl = spec_data_len(status);
                if dpos + dl <= b.len() {
                    let d1 = b[dpos];
                    let d2 = if dl == 2 {
                        b[dpos + 1]
                    } else {
                        0
                    };
                    if d1 < 0x80 && d2 < 0x80 {
                        Some((spec_channel_event(status, d1, d2), dpos + dl, status))
                    } else {
                        None
                    }
                } else {
                    None
                }
            }
        }
    }
}

/// An accepted event ends inside the buffer, past where it began.
pub proof fn lemma_event_step_bounds(b: Seq<u8>, pos: int, running: u8)
    ensures
        spec_event_step(b, pos, running) matches Some(r) ==> pos < r.1 <= b.len(),
{
    if 0 <= pos < b.len() {
        let first = b[pos];
        if first == 0xf0 || first == 0xf7 {
            lemma_vlq_bounds(b, pos + 1, 0, 4);
        } else if first == 0xff {
            lemma_vlq_bounds(b, pos + 2, 0, 4);
        }
    }
}

/// The events of a track from `pos` on: delta time, then event, then the
/// rest, with times accumulated (saturating) into `time`. `None` means the
/// track is malformed.
pub open spec fn spec_parse_events(b: Seq<u8>, pos: int, running: u8, time: u64) -> Option<
    Seq<MidiTrackAccumulateEvent>,
>
    decreases b.len() - pos,
    via spec_parse_events_decreases
{
    if pos < 0 {
        None
    } else if pos >= b.len() {
        Some(Seq::empty())
    } else {
        match spec_vlq(b, pos, 0, 4) {
            None => None,
            Some((delta, p1)) => {
                let t = spec_sat_add(time, delta as u64);
                match spec_event_step(b, p1, running) {
                    None => None,
                    Some((ev, p2, nrun)) => match spec_parse_events(b, p2, nrun, t) {
                        None => None,
                        Some(rest) => Some(
                            match ev {
                                Some(e) => seq![MidiTrackAccumulateEvent { time: t, inner: e }]
                                    + rest,
                                None => rest,
                            },
                        ),
                    },
                }
            },
        }
    }
}

#[via_fn]
proof fn spec_parse_events_decreases(b: Seq<u8>, pos: int, running: u8, time: u64) {
    lemma_vlq_bounds(b, pos, 0, 4);
    if 0 <= pos < b.len() {
        if let Some((delta, p1)) = spec_vlq(b, pos, 0, 4) {
            lemma_event_step_bounds(b, p1, running);
        }
    }
}

/// A parsed track's event times never decrease, and never fall below the
/// running time the parse started with.
pub proof fn lemma_parse_events_sorted(b: Seq<u8>, pos: int, running: u8, time: u64)
    ensures
        spec_parse_events(b, pos, running, time) matches Some(s) ==> spec_times_sorted(s)
            && forall|i: int| 0 <= i < s.len() ==> s[i].time >= time,
    decreases b.len() - pos,
{
    if spec_parse_events(b, pos, running, time) is Some && 0 <= pos < b.len() {
        lemma_vlq_bounds(b, pos, 0, 4);
        let (delta, p1) = spec_vlq(b, pos, 0, 4).unwrap();
        let t = spec_sat_add(time, delta as u64);
        lemma_event_step_bounds(b, p1, running);
        let (ev, p2, nrun) = spec_event_step(b, p1, running).unwrap();
        lemma_parse_events_sorted(b, p2, nrun, t);
    }
}

/// Reads a variable-length quantity at `pos`.
fn read_vlq(b: &[u8], pos: usize) -> (r: Option<(u32, usize)>)
    requires
        pos <= b@.len(),
    ensures
        match r {
            Some((v, p)) => spec_vlq(b@, pos as int, 0, 4) == Some((v, p as int)) && pos < p
                <= b@.len(),
            None => spec_vlq(b@, pos as int, 0, 4) is None,
        },
{
    proof {
        lemma_vlq_bounds(b@, pos as int, 0, 4);
    }
    let mut p = pos;
    let mut acc: u32 = 0;
    let mut rem: u8 = 4;
    loop
        invariant
            pos <= p <= b@.len(),
            rem <= 4,
            rem == 4 ==> acc == 0,
            rem == 3 ==> acc < 0x80,
            rem == 2 ==> acc < 0x4000,
            rem == 1 ==> acc < 0x200000,
            spec_vlq(b@, pos as int, 0, 4) == spec_vlq(b@, p as int, acc as int, rem as int),
        ensures
            match spec_vlq(b@, pos as int, 0, 4) {
                Some(_) => false,
                None => true,
            },
        decreases rem,
    {
        if rem == 0 || p >= b.len() {
            return None;
        }
        let byte = *vstd::slice::slice_index_get(b, p);
        proof {
            lemma_low_bits(byte);
        }
        let v = acc * 128 + (byte & 0x7f) as u32;
        if byte < 0x80 {
            proof {
                lemma_vlq_bounds(b@, p as int, acc as int, rem as int);
            }
            return Some((v, p + 1));
        }
        acc = v;
        p = p + 1;
        rem = rem - 1;
    }
}

proof fn lemma_low_bits(x: u8)
    ensures
        x & 0x7f == x % 128,
        x & 0x7f < 128,
{
    assert(x & 0x7f == x % 128 && x & 0x7f < 128) by (bit_vector);
}

/// Reads one event at `pos` (after its delta time).
fn read_event_step(b: &[u8], pos: usize, running: u8) -> (r: Option<(Option<MidiEvent>, usize, u8)>)
    requires
        pos <= b@.len(),
    ensures
        match r {
            Some((ev, p, nrun)) => spec_event_step(b@, pos as int, running) == Some(
                (ev, p as int, nrun),
            ) && pos < p <= b@.len(),
            None => spec_event_step(b@, pos as int, running) is None,
        },
{
    if pos >= b.len() {
        return None;
    }
    let first = *vstd::slice::slice_index_get(b, pos);
    if first == 0xf0 || first == 0xf7 {
        match read_vlq(b, pos + 1) {
            Some((len, p)) => {
                if len as usize <= b.len() - p {
                    Some((None, p + len as usize, 0))
                } else {
                    None
                }
            },
            None => None,
        }
    } else if first == 0xff {
        if pos + 1 >= b.len() {
            return None;
        }
        let ty = *vstd::slice::slice_index_get(b, pos + 1);
        match read_vlq(b, pos + 2) {
            Some((len, p)) => {
                if len as usize <= b.len() - p {
                    if ty == 0x51 && len == 3 {
                        let d0 = *vstd::slice::slice_index_get(b, p);
                        let d1 = *vstd::slice::slice_index_get(b, p + 1);
                        let d2 = *vstd::slice::slice_index_get(b, p + 2);
                        let microseconds: u64 = (d0 as u64) * 65536 + (d1 as u64) * 256 + (
                        d2 as u64);
                        if microseconds > 0 {
                            let beats_per_minute = MICROS_PER_MINUTE * FP_ONE / microseconds;
                            let meta = MidiMetaEvent::Tempo { beats_per_minute };
                            Some((Some(meta.as_event()), p + 3, 0))
                        } else {
                            Some((None, p + 3, 0))
                        }
                    } else {
                        Some((None, p + len as usize, 0))
                    }
                } else {
                    None
                }
            },
            None => None,
        }
    } else if first >= 0xf1 {
        None
    } else {
        let has_status = first >= 0x80;
        if !has_status && running < 0x80 {
            return None;
        }
        let status = if has_status {
            first
        } else {
            running
        };
        let dpos = if has_status {
            pos + 1
        } else {
            pos
        };
        let dl: usize = if 0xc0 <= status && status < 0xe0 {
            1
        } else {
            2
        };
        if dl <= b.len() - dpos {
            let d1 = *vstd::slice::slice_index_get(b, dpos);
            let d2 = if dl == 2 {
                *vstd::slice::slice_index_get(b, dpos + 1)
            } else {
                0
            };
            if d1 < 0x80 && d2 < 0x80 {
                let ev = if status < 0x90 {
                    Some(MidiEvent::NoteOff { channel: status % 16, note: d1 })
                } else if status < 0xa0 {
                    Some(MidiEvent::NoteOn { channel: status % 16, note: d1, velocity: d2 })
                } else {
                    None
                };
                Some((ev, dpos + dl, status))
            } else {
                None
            }
        } else {
            None
        }
    }
}

/// Glues a parsed prefix onto what the rest of a track parses to.
pub open spec fn spec_with_prefix(
    prefix: Seq<MidiTrackAccumulateEvent>,
    rest: Option<Seq<MidiTrackAccumulateEvent>>,
) -> Option<Seq<MidiTrackAccumulateEvent>> {
    match rest {
        Some(t) => Some(prefix + t),
        None => None,
    }
}

/// Parses the events of one track chunk's payload.
fn parse_track_events(b: &[u8]) -> (r: Option<Vec<MidiTrackAccumulateEvent>>)
    ensures
        match r {
            Some(v) => spec_parse_events(b@, 0, 0, 0) == Some(v@),
            None => spec_parse_events(b@, 0, 0, 0) is None,
        },
{
    let mut out: Vec<MidiTrackAccumulateEvent> = Vec::new();
    let mut pos: usize = 0;
    let mut running: u8 = 0;
    let mut time: u64 = 0;
    loop
        invariant
            pos <= b@.len(),
            spec_parse_events(b@, 0, 0, 0) == spec_with_prefix(
                out@,
                spec_parse_events(b@, pos as int, running, time),
            ),
        ensures
            match spec_parse_events(b@, 0, 0, 0) {
                Some(v) => v == out@,
                None => false,
            },
        decreases b@.len() - pos,
    {
        if pos >= b.len() {
            assert(spec_parse_events(b@, pos as int, running, time) == Some(
                Seq::<MidiTrackAccumulateEvent>::empty(),
            ));
            assert(out@ + Seq::<MidiTrackAccumulateEvent>::empty() =~= out@);
            break ;
        }
        let ghost pos0 = pos as int;
        let ghost running0 = running;
        let ghost time0 = time;
        let vlq = read_vlq(b, pos);
        if vlq.is_none() {
            return None;
        }
        let (delta, p1) = vlq.unwrap();
        let t = crate::fixed::sat_add(time, delta as u64);
        let step = read_event_step(b, p1, running);
        if step.is_none() {
            return None;
        }
        let (ev, p2, nrun) = step.unwrap();
        proof {
            let tail = spec_parse_events(b@, p2 as int, nrun, t);
            if let Some(rest) = tail {
                match ev {
                    Some(e) => {
                        assert(spec_parse_events(b@, pos0, running0, time0) == Some(
                            seq![MidiTrackAccumulateEvent { time: t, inner: e }] + rest,
                        ));
                        assert(out@ + (seq![MidiTrackAccumulateEvent { time: t, inner: e }] + rest)
                            =~= out@.push(MidiTrackAccumulateEvent { time: t, inner: e }) + rest);
                    },
                    None => {
                        assert(spec_parse_events(b@, pos0, running0, time0) == Some(rest));
                    },
                }
            }
        }
        if let Some(e) = ev {
            out.push(MidiTrackAccumulateEvent { time: t, inner: e });
        }
        pos = p2;
        running = nrun;
        time = t;
    }
    Some(out)
}

/// The chunk row from `pos` on: the division of the first header chunk, if
/// any, and the payloads of the track chunks in order. Chunks of other
/// kinds are skipped. `None` means a chunk reaches past the end of the
/// file or a header chunk is shorter than its six required bytes.
pub open spec fn spec_chunks(b: Seq<u8>, pos: int) -> Option<(Option<u16>, Seq<Seq<u8>>)>
    decreases b.len() - pos,
    via spec_chunks_decreases
{
    if pos < 0 {
        None
    } else if pos >= b.len() {
        Some((None, Seq::empty()))
    } else if pos + 8 > b.len() {
        None
    } else {
        let clen = b[pos + 4] * 16777216 + b[pos + 5] * 65536 + b[pos + 6] * 256 + b[pos + 7];
        if pos + 8 + clen > b.len() {
            None
        } else {
            let payload = b.subrange(pos + 8, pos + 8 + clen);
            match spec_chunks(b, pos + 8 + clen) {
                None => None,
                Some((hdr, tracks)) => {
                    if b[pos] == 0x4d && b[pos + 1] == 0x54 && b[pos + 2] == 0x68 && b[pos + 3]
                        == 0x64 {
                        // a header chunk; the first one in the file wins
                        if clen < 6 {
                            None
                        } else {
                            Some(
                                (Some((payload[4] * 256 + payload[5]) as u16), tracks),
                            )
                        }
                    } else if b[pos] == 0x4d && b[pos + 1] == 0x54 && b[pos + 2] == 0x72 && b[pos
                        + 3] == 0x6b {
                        // a track chunk
                        Some((hdr, seq![payload] + tracks))
                    } else {
                        Some((hdr, tracks))
                    }
                },
            }
        }
    }
}

#[via_fn]
proof fn spec_chunks_decreases(b: Seq<u8>, pos: int) {
}

/// The earlier of two optional headers.
pub open spec fn spec_first_header(a: Option<u16>, b: Option<u16>) -> Option<u16> {
    if a is Some {
        a
    } else {
        b
    }
}

/// What each track payload parses to; a payload that fails stands as an
/// empty track (the failure itself is reported separately).
pub open spec fn spec_parsed_tracks(ts: Seq<Seq<u8>>) -> Seq<Seq<MidiTrackAccumulateEvent>> {
    ts.map_values(
        |p: Seq<u8>|
            match spec_parse_events(p, 0, 0, 0) {
                Some(s) => s,
                None => Seq::empty(),
            },
    )
}

/// Whether some track chunk of the file holds malformed event bytes.
pub open spec fn spec_some_track_fails(b: Seq<u8>) -> bool {
    match spec_chunks(b, 0) {
        Some((h, ts)) => exists|i: int|
            0 <= i < ts.len() && spec_parse_events(#[trigger] ts[i], 0, 0, 0) is None,
        None => false,
    }
}

/// Whether the chunk row parses, has a header with a supported division,
/// and every track chunk's events parse.
pub open spec fn spec_file_accepted(b: Seq<u8>) -> bool {
    match spec_chunks(b, 0) {
        Some((Some(d), ts)) => d < 0x8000 && forall|i: int|
            0 <= i < ts.len() ==> spec_parse_events(#[trigger] ts[i], 0, 0, 0) is Some,
        _ => false,
    }
}

impl MidiFile {
    /// Parses standard MIDI file bytes into a header division and one
    /// event list per track chunk. Rejects a file without a header chunk,
    /// with an SMPTE division, with a chunk that reaches past the end, or
    /// with malformed track events.
    pub fn from_bytes(bytes: &[u8]) -> (r: Result<MidiFile, MidiFileError>)
        ensures
            match r {
                Ok(f) => {
                    &&& spec_file_accepted(bytes@)
                    &&& spec_chunks(bytes@, 0) matches Some((Some(d), ts)) && f.ticks_per_beat == d
                        && spec_track_views(f.tracks@) == spec_parsed_tracks(ts)
                    &&& forall|i: int|
                        0 <= i < f.tracks@.len() ==> spec_times_sorted(#[trigger] f.tracks@[i]@)
                },
                Err(MidiFileError::TruncatedChunk) => spec_chunks(bytes@, 0) is None,
                Err(MidiFileError::MissingHeader) => spec_chunks(bytes@, 0) matches Some(
                    (None::<u16>, _),
                ),
                Err(MidiFileError::InvalidDivision) => spec_chunks(bytes@, 0) matches Some(
                    (Some(d), _),
                ) && d >= 0x8000,
                Err(MidiFileError::InvalidTrackData) => spec_chunks(bytes@, 0) matches Some(
                    (Some(d), _),
                ) && d < 0x8000 && spec_some_track_fails(bytes@),
            },
    {
        let mut pos: usize = 0;
        let mut header: Option<u16> = None;
        let mut payloads: Vec<&[u8]> = Vec::new();
        let n = bytes.len();
        loop
            invariant
                pos <= n == bytes@.len(),
                match spec_chunks(bytes@, pos as int) {
                    None => spec_chunks(bytes@, 0) is None,
                    Some((h, ts)) => spec_chunks(bytes@, 0) == Some(
                        (
                            spec_first_header(header, h),
                            payloads@.map_values(|s: &[u8]| s@) + ts,
                        ),
                    ),
                },
            ensures
                match spec_chunks(bytes@, 0) {
                    None => false,
                    Some((h, ts)) => h == header && ts == payloads@.map_values(|s: &[u8]| s@),
                },
            decreases n - pos,
        {
            if pos >= n {
                proof {
                    let ghost views = payloads@.map_values(|s: &[u8]| s@);
                    assert(views + Seq::<Seq<u8>>::empty() =~= views);
                }
                break ;
            }
            if n - pos < 8 {
                return Err(MidiFileError::TruncatedChunk);
            }
            let c0 = *vstd::slice::slice_index_get(bytes, pos);
            let c1 = *vstd::slice::slice_index_get(bytes, pos + 1);
            let c2 = *vstd::slice::slice_index_get(bytes, pos + 2);
            let c3 = *vstd::slice::slice_index_get(bytes, pos + 3);
            let l0 = *vstd::slice::slice_index_get(bytes, pos + 4);
            let l1 = *vstd::slice::slice_index_get(bytes, pos + 5);
            let l2 = *vstd::slice::slice_index_get(bytes, pos + 6);
            let l3 = *vstd::slice::slice_index_get(bytes, pos + 7);
            let clen: u64 = (l0 as u64) * 16777216 + (l1 as u64) * 65536 + (l2 as u64) * 256 + (
            l3 as u64);
            if clen > (n - pos - 8) as u64 {
                return Err(MidiFileError::TruncatedChunk);
            }
            let clen_us: usize = clen as usize;
            let payload = slice_subrange(bytes, pos + 8, pos + 8 + clen_us);
            let ghost old_header = header;
            let ghost old_views = payloads@.map_values(|s: &[u8]| s@);
            if c0 == 0x4d && c1 == 0x54 && c2 == 0x68 && c3 == 0x64 {
                if clen_us < 6 {
                    return Err(MidiFileError::TruncatedChunk);
                }
                let d0 = *vstd::slice::slice_index_get(payload, 4);
                let d1 = *vstd::slice::slice_index_get(payload, 5);
                if header.is_none() {
                    header = Some((d0 as u16) * 256 + d1 as u16);
                }
            } else if c0 == 0x4d && c1 == 0x54 && c2 == 0x72 && c3 == 0x6b {
                payloads.push(payload);
                proof {
                    assert(payloads@.map_values(|s: &[u8]| s@) =~= old_views + seq![payload@]);
                }
            }
            proof {
                if let Some((h2, ts2)) = spec_chunks(bytes@, pos + 8 + clen as int) {
                    assert(spec_first_header(
                        old_header,
                        spec_first_header(
                            if c0 == 0x4d && c1 == 0x54 && c2 == 0x68 && c3 == 0x64 {
                                spec_chunks(bytes@, pos as int).unwrap().0
                            } else {
                                h2
                            },
                            h2,
                        ),
                    ) == spec_first_header(header, h2));
                    if c0 == 0x4d && c1 == 0x54 && c2 == 0x72 && c3 == 0x6b {
                        assert((old_views + seq![payload@]) + ts2 =~= old_views + (seq![payload@]
                            + ts2));
                    }
                }
            }
            pos = pos + 8 + clen_us;
        }
        let division = match header {
            Some(d) => d,
            None => {
                return Err(MidiFileError::MissingHeader);
            },
        };
        if division >= 0x8000 {
            return Err(MidiFileError::InvalidDivision);
        }
        let ghost ts = payloads@.map_values(|s: &[u8]| s@);
        let mut tracks: Vec<Vec<MidiTrackAccumulateEvent>> = Vec::new();
        let mut k: usize = 0;
        while k < payloads.len()
            invariant
                k <= payloads@.len(),
                ts == payloads@.map_values(|s: &[u8]| s@),
                spec_chunks(bytes@, 0) == Some((Some(division), ts)),
                division < 0x8000,
                tracks@.len() == k,
                forall|i: int|
                    0 <= i < k ==> Some(#[trigger] tracks@[i]@) == spec_parse_events(
                        ts[i],
                        0,
                        0,
                        0,
                    ),
            decreases payloads@.len() - k,
        {
            match parse_track_events(payloads[k]) {
                Some(v) => {
                    tracks.push(v);
                },
                None => {
                    assert(spec_parse_events(ts[k as int], 0, 0, 0) is None);
                    assert(spec_some_track_fails(bytes@));
                    return Err(MidiFileError::InvalidTrackData);
                },
            }
            k += 1;
        }
        proof {
            assert forall|i: int| 0 <= i < ts.len() implies spec_parse_events(
                #[trigger] ts[i],
                0,
                0,
                0,
            ) is Some by {
                assert(Some(tracks@[i]@) == spec_parse_events(ts[i], 0, 0, 0));
            }
            assert(spec_track_views(tracks@) =~= spec_parsed_tracks(ts));
            assert forall|i: int| 0 <= i < tracks@.len() implies spec_times_sorted(
                #[trigger] tracks@[i]@,
            ) by {
                lemma_parse_events_sorted(ts[i], 0, 0, 0);
            }
        }
        Ok(MidiFile { ticks_per_beat: division, tracks })
    }
}

impl MidiTrack {
    /// Parses standard MIDI file bytes and compiles all tracks into one
    /// chronological event list; the merged timeline never decreases.
    pub fn from_bytes(bytes: &[u8]) -> (r: Result<MidiTrack, MidiFileError>)
        ensures
            match r {
                Ok(t) => {
                    &&& spec_file_accepted(bytes@)
                    &&& spec_chunks(bytes@, 0) matches Some((Some(d), ts)) && t.ticks_per_beat == d
                        && t.events@ == spec_merge(spec_parsed_tracks(ts))
                    &&& spec_times_sorted(t.events@)
                },
                Err(_) => !spec_file_accepted(bytes@),
            },
    {
        let file = match MidiFile::from_bytes(bytes) {
            Ok(f) => f,
            Err(e) => {
                return Err(e);
            },
        };
        proof {
            crate::midi::lemma_merge_sorted(spec_track_views(file.tracks@));
        }
        Ok(MidiTrack::from_midi_file(file))
    }
}

} // verus!
