//! Voices: sounding note instances and their resampling arithmetic.
//!
//! A voice is created on note-on and holds one [`VoiceSample`] per sample
//! region the bank resolved (one for mono, two for a stereo pair). Each
//! sample keeps a Q32.32 playback position that advances by a Q32.32
//! speed every frame; its contribution to an output slot is the linear
//! interpolation of the wave at that position, scaled by the velocity
//! volume. A sample is alive while its position lies before its end
//! bound; advancing prunes the dead.

use crate::fixed::{fp_floor, fp_frac, spec_fp_floor, spec_fp_frac, FP_ONE};
use vstd::prelude::*;

verus! {

/// The stereo affinity of a sample region, from the SoundFont sample type
/// word.
#[derive(Clone, Copy, Debug, PartialEq, Eq, Structural)]
pub enum SampleType {
    Mono,
    Right,
    Left,
}

impl SampleType {
    /// The affinity a SoundFont sample type word names, if it is one this
    /// renderer can voice.
    pub fn from_code(code: i32) -> (r: Option<SampleType>)
        ensures
            r == spec_sample_type_of_code(code),
    {
        if code == 1 {
            Some(SampleType::Mono)
        } else if code == 2 {
            Some(SampleType::Right)
        } else if code == 4 {
            Some(SampleType::Left)
        } else {
            None
        }
    }
}

/// The affinity a SoundFont sample type word names.
pub open spec fn spec_sample_type_of_code(code: i32) -> Option<SampleType> {
    if code == 1 {
        Some(SampleType::Mono)
    } else if code == 2 {
        Some(SampleType::Right)
    } else if code == 4 {
        Some(SampleType::Left)
    } else {
        None
    }
}

/// Whether a sample of this affinity sounds on the given output slot
/// (slot 0 is left, slot 1 is right; mono sounds on both).
pub open spec fn spec_slot_matches(st: SampleType, slot: u16) -> bool {
    st == SampleType::Mono || (if slot == 0 {
        st == SampleType::Left
    } else {
        st == SampleType::Right
    })
}

/// The largest resampling speed: two octaves above the table top,
/// 2^43 in Q32.32.
pub const MAX_SPEED: u64 = 0x800_0000_0000;

/// The largest end bound a sample region can have, `i32::MAX` in Q32.32.
pub const MAX_END_FP: u64 = 0x7fffffff_00000000;

/// The largest velocity volume: 255/127 in Q32.32, rounded up to 3.0.
pub const MAX_VOLUME: u64 = 0x3_0000_0000;

/// The Q32.32 ratio 2^(k/12) for one octave of semitone steps.
pub open spec fn spec_semitone_ratio(k: int) -> u64 {
    if k <= 0 {
        4294967296
    } else if k == 1 {
        4550359341
    } else if k == 2 {
        4820937788
    } else if k == 3 {
        5107605667
    } else if k == 4 {
        5411319704
    } else if k == 5 {
        5733093519
    } else if k == 6 {
        6074000999
    } else if k == 7 {
        6435179894
    } else if k == 8 {
        6817835603
    } else if k == 9 {
        7223245205
    } else if k == 10 {
        7652761716
    } else if k == 11 {
        8107818609
    } else {
        8589934592
    }
}

/// The Q32.32 ratio 2^(k/12).
pub fn semitone_ratio(k: u64) -> (r: u64)
    requires
        k <= 12,
    ensures
        r == spec_semitone_ratio(k as int),
{
    if k == 0 {
        4294967296
    } else if k == 1 {
        4550359341
    } else if k == 2 {
        4820937788
    } else if k == 3 {
        5107605667
    } else if k == 4 {
        5411319704
    } else if k == 5 {
        5733093519
    } else if k == 6 {
        6074000999
    } else if k == 7 {
        6435179894
    } else if k == 8 {
        6817835603
    } else if k == 9 {
        7223245205
    } else if k == 10 {
        7652761716
    } else if k == 11 {
        8107818609
    } else {
        8589934592
    }
}

/// The playback speed for a note against a sample recorded at `root` with
/// a correction in cents: 2^(((note-root)*100 + correction)/1200) in
/// Q32.32, with the fraction between semitone steps interpolated
/// linearly. Whole octaves are exact powers of two.
pub open spec fn spec_resample_speed(note: int, root: int, correction: int) -> u64 {
    let shifted = ((note - root) * 100 + correction + 26400) as u64;
    let octave = shifted / 1200;
    let within = shifted % 1200;
    let k = (within / 100) as int;
    let cf = within % 100;
    let base = (spec_semitone_ratio(k) + (spec_semitone_ratio(k + 1) - spec_semitone_ratio(k)) * cf
        / 100) as u64;
    if octave >= 22 {
        base << ((octave - 22) as u64)
    } else {
        base >> ((22 - octave) as u64)
    }
}

/// The playback speed for a note against a sample's recorded pitch.
pub fn resample_speed(note: u8, original_pitch: i32, pitch_correction: i32) -> (r: u64)
    requires
        note <= 127,
        0 <= original_pitch <= 255,
        -128 <= pitch_correction <= 127,
    ensures
        r == spec_resample_speed(note as int, original_pitch as int, pitch_correction as int),
        1 <= r <= MAX_SPEED,
{
    let cents: i64 = (note as i64 - original_pitch as i64) * 100 + pitch_correction as i64;
    let shifted: u64 = (cents + 26400) as u64;
    let octave = shifted / 1200;
    let within = shifted % 1200;
    let k = within / 100;
    let cf = within % 100;
    let tk = semitone_ratio(k);
    let tk1 = semitone_ratio(k + 1);
    assert(tk1 >= tk && tk >= 4294967296 && tk1 <= 8589934592);
    assert((tk1 - tk) * cf / 100 <= tk1 - tk) by (nonlinear_arith)
        requires
            cf < 100,
            tk1 >= tk,
    ;
    let base = tk + (tk1 - tk) * cf / 100;
    if octave >= 22 {
        let s = octave - 22;
        assert(s <= 10);
        assert(base <= 0x2_0000_0000 && s <= 10 ==> (base << s) <= 0x800_0000_0000 && (base << s)
            >= 1 && base >= 1 ==> (base << s) >= 1) by (bit_vector);
        assert(base >= 1 && base <= 0x2_0000_0000 && s <= 10 ==> 1 <= (base << s)
            <= 0x800_0000_0000) by (bit_vector);
        base << s
    } else {
        let s = 22 - octave;
        assert(s <= 22);
        assert(base >= 0x1_0000_0000 && s <= 22 ==> 1 <= (base >> s) <= base) by (bit_vector);
        base >> s
    }
}

/// Speed is the identity for a request at the sample's own pitch, and
/// exactly doubles one octave up.
pub proof fn lemma_resample_speed_unison_octave(note: int)
    requires
        0 <= note <= 127,
    ensures
        spec_resample_speed(note, note, 0) == FP_ONE,
        note + 12 <= 127 ==> spec_resample_speed(note + 12, note, 0) == 2 * FP_ONE,
{
    assert((4294967296u64 << 0u64) == 4294967296) by (bit_vector);
    assert((4294967296u64 << 1u64) == 8589934592) by (bit_vector);
    let shifted = ((note - note) * 100 + 0 + 26400) as u64;
    assert(shifted == 26400u64);
    let octave = shifted / 1200;
    let within = shifted % 1200;
    assert(octave == 22 && within == 0);
    let k = (within / 100) as int;
    let cf = within % 100;
    assert(k == 0 && cf == 0);
    let base = (spec_semitone_ratio(k) + (spec_semitone_ratio(k + 1) - spec_semitone_ratio(k)) * cf
        / 100) as u64;
    assert(base == 4294967296u64);
    assert((octave - 22) as u64 == 0u64);
    assert(spec_resample_speed(note, note, 0) == (base << ((octave - 22) as u64)));
    assert(spec_resample_speed(note, note, 0) == (4294967296u64 << 0u64));
    if note + 12 <= 127 {
        assert(((note + 12 - note) * 100 + 0 + 26400) as u64 == 27600u64);
        assert(27600u64 / 1200 == 23 && 27600u64 % 1200 == 0);
        assert(spec_resample_speed(note + 12, note, 0) == (4294967296u64 << 1u64));
    }
}

/// One sounding sample region: position, speed, bounds, affinity and
/// volume. Position, speed, bounds and volume are Q32.32.
#[derive(Clone, Copy, Debug, PartialEq, Eq, Structural)]
pub struct VoiceSample {
    pub speed: u64,
    pub current_sample: u64,
    pub end_sample: u64,
    pub sample_type: SampleType,
    pub volume: u64,
}

impl VoiceSample {
    /// Alive, with bounded speed, volume and end bound: what creation
    /// establishes and advancing preserves for the samples it keeps.
    pub open spec fn wf(self) -> bool {
        &&& self.current_sample < self.end_sample
        &&& self.end_sample <= MAX_END_FP
        &&& 1 <= self.speed <= MAX_SPEED
        &&& self.volume <= MAX_VOLUME
    }

    /// Whether the region's end bound leaves the interpolation's
    /// one-ahead read inside the wave.
    pub open spec fn fits(self, wave_len: int) -> bool {
        self.end_sample <= (wave_len - 1) * FP_ONE
    }

    /// This sample one frame later.
    pub open spec fn spec_advanced(self) -> VoiceSample {
        VoiceSample { current_sample: (self.current_sample + self.speed) as u64, ..self }
    }

    /// Advances the position by the speed.
    pub fn tick(&mut self)
        requires
            old(self).wf(),
        ensures
            *final(self) == old(self).spec_advanced(),
    {
        self.current_sample = self.current_sample + self.speed;
    }
}

/// Truncated scaling: `x * volume / 2^64`, rounded towards zero.
pub open spec fn spec_scale_trunc(x: int, volume: int) -> int {
    if x >= 0 {
        x * volume / 0x1_0000_0000_0000_0000
    } else {
        -((-x) * volume / 0x1_0000_0000_0000_0000)
    }
}

/// What one sample region adds to the mix: the wave linearly interpolated
/// at its position, scaled by its volume.
pub open spec fn spec_contribution(wave: Seq<i16>, s: VoiceSample) -> int {
    let f = spec_fp_floor(s.current_sample);
    let frac = spec_fp_frac(s.current_sample);
    let interp = wave[f + 1] * frac + wave[f] * (FP_ONE - frac);
    spec_scale_trunc(interp, s.volume as int)
}

/// The largest magnitude a contribution can have: full scale at the
/// largest volume.
pub const MAX_CONTRIBUTION: i64 = 98304;

/// What one sample region adds to the mix.
pub fn contribution(wave: &[i16], s: &VoiceSample) -> (r: i64)
    requires
        s.wf(),
        s.fits(wave@.len() as int),
    ensures
        r == spec_contribution(wave@, *s),
        -MAX_CONTRIBUTION <= r <= MAX_CONTRIBUTION,
{
    let f64b = fp_floor(s.current_sample);
    proof {
        vstd::arithmetic::div_mod::lemma_multiply_divide_lt(
            s.current_sample as int,
            wave@.len() - 1,
            FP_ONE as int,
        );
    }
    let f = f64b as usize;
    let w0 = *vstd::slice::slice_index_get(wave, f) as i64;
    let w1 = *vstd::slice::slice_index_get(wave, f + 1) as i64;
    let frac = fp_frac(s.current_sample) as i64;
    proof {
        assert(w1 * frac <= 32767 * frac && w1 * frac >= -32768 * frac) by (nonlinear_arith)
            requires
                -32768 <= w1 <= 32767,
                0 <= frac,
        ;
        assert(w0 * (FP_ONE - frac) <= 32767 * (FP_ONE - frac) && w0 * (FP_ONE - frac) >= -32768 * (
        FP_ONE - frac)) by (nonlinear_arith)
            requires
                -32768 <= w0 <= 32767,
                frac <= FP_ONE,
        ;
    }
    let interp: i64 = w1 * frac + w0 * (FP_ONE as i64 - frac);
    assert(-0x8000_0000_0000i64 <= interp <= 0x8000_0000_0000i64);
    if interp >= 0 {
        proof {
            assert(interp * s.volume <= 0x8000_0000_0000 * 0x3_0000_0000) by (nonlinear_arith)
                requires
                    0 <= interp <= 0x8000_0000_0000i64,
                    s.volume <= 0x3_0000_0000u64,
            ;
        }
        let p = (interp as u128) * (s.volume as u128);
        proof {
            vstd::arithmetic::div_mod::lemma_div_is_ordered(
                p as int,
                0x18000_0000_0000_0000_0000,
                0x1_0000_0000_0000_0000,
            );
        }
        (p / 0x1_0000_0000_0000_0000u128) as i64
    } else {
        let m = (-interp) as u128;
        proof {
            assert(m * s.volume <= 0x8000_0000_0000 * 0x3_0000_0000) by (nonlinear_arith)
                requires
                    0 <= m <= 0x8000_0000_0000u128,
                    s.volume <= 0x3_0000_0000u64,
            ;
        }
        let p = m * (s.volume as u128);
        proof {
            vstd::arithmetic::div_mod::lemma_div_is_ordered(
                p as int,
                0x18000_0000_0000_0000_0000,
                0x1_0000_0000_0000_0000,
            );
        }
        -((p / 0x1_0000_0000_0000_0000u128) as i64)
    }
}

/// One sounding note: the key it answers to and its sample regions.
#[derive(Clone, Debug)]
pub struct Voice {
    pub note: u8,
    pub samples: Vec<VoiceSample>,
}

/// Every sample region of the sequence is well formed and inside the
/// wave.
pub open spec fn spec_samples_wf(ss: Seq<VoiceSample>, wave_len: int) -> bool {
    forall|i: int| 0 <= i < ss.len() ==> (#[trigger] ss[i]).wf() && ss[i].fits(wave_len)
}

/// The sum of the contributions of the regions that sound on the slot.
pub open spec fn spec_samples_output(ss: Seq<VoiceSample>, wave: Seq<i16>, slot: u16) -> int
    decreases ss.len(),
{
    if ss.len() == 0 {
        0
    } else {
        spec_samples_output(ss.drop_last(), wave, slot) + (if spec_slot_matches(
            ss.last().sample_type,
            slot,
        ) {
            spec_contribution(wave, ss.last())
        } else {
            0
        })
    }
}

/// The regions kept after one frame: every position advanced by its
/// speed, regions past their end bound dropped.
pub open spec fn spec_tick_samples(ss: Seq<VoiceSample>) -> Seq<VoiceSample>
    decreases ss.len(),
{
    if ss.len() == 0 {
        Seq::empty()
    } else {
        let a = ss.last().spec_advanced();
        spec_tick_samples(ss.drop_last()) + (if a.current_sample < a.end_sample {
            seq![a]
        } else {
            Seq::empty()
        })
    }
}

impl Voice {
    /// What this voice adds to the given output slot.
    pub fn sample(&self, wave: &[i16], current_audio_channel: u16) -> (r: i128)
        requires
            spec_samples_wf(self.samples@, wave@.len() as int),
        ensures
            r == spec_samples_output(self.samples@, wave@, current_audio_channel),
            -(self.samples@.len() as int) * MAX_CONTRIBUTION <= r <= (self.samples@.len() as int)
                * MAX_CONTRIBUTION,
    {
        let mut total: i128 = 0;
        let mut j: usize = 0;
        let n = self.samples.len();
        while j < n
            invariant
                n == self.samples@.len(),
                j <= n,
                spec_samples_wf(self.samples@, wave@.len() as int),
                total == spec_samples_output(self.samples@.take(j as int), wave@,
                current_audio_channel),
                -(j as int) * MAX_CONTRIBUTION <= total <= (j as int) * MAX_CONTRIBUTION,
            decreases n - j,
        {
            let s = &self.samples[j];
            let matches_slot = match s.sample_type {
                SampleType::Mono => true,
                SampleType::Left => current_audio_channel == 0,
                SampleType::Right => current_audio_channel != 0,
            };
            proof {
                assert(self.samples@.take(j + 1).drop_last() =~= self.samples@.take(j as int));
                assert(self.samples@.take(j + 1).last() == self.samples@[j as int]);
                assert((j as int + 1) * MAX_CONTRIBUTION == (j as int) * MAX_CONTRIBUTION
                    + MAX_CONTRIBUTION) by (nonlinear_arith);
            }
            if matches_slot {
                let c = contribution(wave, s);
                total = total + c as i128;
            }
            j += 1;
        }
        proof {
            assert(self.samples@.take(n as int) =~= self.samples@);
        }
        total
    }

    /// Advances every region by one frame and prunes those whose position
    /// has passed their end bound.
    pub fn tick(&mut self)
        requires
            forall|i: int|
                0 <= i < old(self).samples@.len() ==> (#[trigger] old(self).samples@[i]).wf(),
        ensures
            final(self).note == old(self).note,
            final(self).samples@ == spec_tick_samples(old(self).samples@),
    {
        let mut out: Vec<VoiceSample> = Vec::new();
        let mut j: usize = 0;
        let n = self.samples.len();
        while j < n
            invariant
                n == self.samples@.len(),
                j <= n,
                forall|i: int| 0 <= i < n ==> (#[trigger] self.samples@[i]).wf(),
                out@ == spec_tick_samples(self.samples@.take(j as int)),
            decreases n - j,
        {
            let s = self.samples[j];
            proof {
                assert(self.samples@.take(j + 1).drop_last() =~= self.samples@.take(j as int));
                assert(self.samples@.take(j + 1).last() == self.samples@[j as int]);
            }
            let advanced = VoiceSample { current_sample: s.current_sample + s.speed, ..s };
            if advanced.current_sample < advanced.end_sample {
                out.push(advanced);
                proof {
                    assert(spec_tick_samples(self.samples@.take(j as int)).push(advanced)
                        =~= spec_tick_samples(self.samples@.take(j as int)) + seq![advanced]);
                }
            } else {
                proof {
                    assert(spec_tick_samples(self.samples@.take(j as int))
                        + Seq::<VoiceSample>::empty() =~= spec_tick_samples(
                        self.samples@.take(j as int),
                    ));
                }
            }
            j += 1;
        }
        proof {
            assert(self.samples@.take(n as int) =~= self.samples@);
        }
        self.samples = out;
    }
}

/// Advancing keeps every region well formed and inside the wave.
pub proof fn lemma_tick_samples_wf(ss: Seq<VoiceSample>, wave_len: int)
    requires
        spec_samples_wf(ss, wave_len),
    ensures
        spec_samples_wf(spec_tick_samples(ss), wave_len),
        spec_tick_samples(ss).len() <= ss.len(),
    decreases ss.len(),
{
    if ss.len() > 0 {
        lemma_tick_samples_wf(ss.drop_last(), wave_len);
    }
}

} // verus!
