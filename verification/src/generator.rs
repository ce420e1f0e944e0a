//! The generator graph: pull-based, per-sample signal stages.
//!
//! Every stage produces one sample per pull until it is exhausted, and
//! exhaustion is permanent.  Samples are fixed-point `i64` values scaled by
//! 65536; oscillators keep a phase accumulator in which one full cycle is
//! 2^32, advanced by `frequency / sample rate` of a cycle per pull.
//! Frequencies are millihertz, clamped to the sample rate.  Building a graph
//! has no side effects; only pulling samples mutates state.

use vstd::prelude::*;

verus! {

use crate::volts::{frequency_of_volt, frequency_per_volt, volts_per_frequency, voltage_of_frequency};

/// Samples a stage hands downstream never exceed this magnitude; the
/// amplifier, attenuator and filter saturate instead of overflowing.
pub const SAMPLE_LIMIT: i64 = 0x1_0000_0000;

/// One full oscillator cycle in phase-accumulator units.
pub const PHASE_ONE: u64 = 0x1_0000_0000;

/// The highest frequency any stage accepts, in millihertz.
pub const MAX_FREQUENCY: u64 = 44_100_000;

/// The view of an emitted sample.
pub open spec fn opt_val(r: Option<i64>) -> Option<int> {
    match r {
        Some(v) => Some(v as int),
        None => None,
    }
}

/// Frequencies are clamped to the representable band before use.
pub open spec fn clamp_frequency(f: int) -> int {
    if f < 0 {
        0
    } else if f > 44_100_000 {
        44_100_000
    } else {
        f
    }
}

/// Samples saturate at the limit instead of overflowing.
pub open spec fn clamp_sample(x: int) -> int {
    if x < -0x1_0000_0000 {
        -0x1_0000_0000
    } else if x > 0x1_0000_0000 {
        0x1_0000_0000
    } else {
        x
    }
}

/// Phase advance per pulled sample: `frequency / sample rate` of a cycle.
pub open spec fn phase_step(f: int) -> int {
    f * 0x1_0000_0000 / 44_100_000
}

/// Whether the accumulator completes a cycle on this pull.
pub open spec fn phase_wraps(p: int, f: int) -> bool {
    p + phase_step(f) >= 0x1_0000_0000
}

/// The accumulator after one pull; it wraps at one full cycle.
pub open spec fn next_phase(p: int, f: int) -> int {
    if phase_wraps(p, f) {
        p + phase_step(f) - 0x1_0000_0000
    } else {
        p + phase_step(f)
    }
}

/// Square rule: +0.5 in the first half of the cycle, -0.5 in the second.
pub open spec fn square_sample(p: int) -> int {
    if p < 0x8000_0000 {
        32768
    } else {
        -32768
    }
}

/// Saw rule: descends linearly from +0.5 to -0.5 over the cycle.
pub open spec fn saw_sample(p: int) -> int {
    32768 - p / 0x10000
}

/// Ramp rule: ascends linearly from -0.5 to +0.5 over the cycle.
pub open spec fn ramp_sample(p: int) -> int {
    p / 0x10000 - 32768
}

/// Triangle rule: rises over the first half of the cycle, falls mirrored
/// over the second, range [-0.5, 0.5].
pub open spec fn triangle_sample(p: int) -> int {
    if p < 0x8000_0000 {
        p / 0x8000 - 32768
    } else {
        32768 - (p - 0x8000_0000) / 0x8000
    }
}

fn clamp_frequency_exec(f: u64) -> (c: u64)
    ensures
        c as int == clamp_frequency(f as int),
        c <= 44_100_000,
{
    if f > 44_100_000 {
        44_100_000
    } else {
        f
    }
}

fn clamp_frequency_i64(f: i64) -> (c: u64)
    ensures
        c as int == clamp_frequency(f as int),
        c <= 44_100_000,
{
    if f < 0 {
        0
    } else if f > 44_100_000 {
        44_100_000
    } else {
        f as u64
    }
}

/// Advance a phase accumulator by one pull; also reports whether the cycle
/// wrapped on this pull.
fn advance_phase(frequency: u64, period: u64) -> (r: (u64, bool))
    requires
        frequency <= 44_100_000,
        period < 0x1_0000_0000,
    ensures
        r.0 as int == next_phase(period as int, frequency as int),
        r.1 == phase_wraps(period as int, frequency as int),
        r.0 < 0x1_0000_0000,
{
    let step: u64 = frequency * 0x1_0000_0000u64 / 44_100_000u64;
    proof {
        vstd::arithmetic::div_mod::lemma_div_is_ordered(
            (frequency * 0x1_0000_0000) as int,
            (44_100_000 * 0x1_0000_0000) as int,
            44_100_000,
        );
        vstd::arithmetic::div_mod::lemma_div_multiples_vanish(0x1_0000_0000, 44_100_000);
    }
    let sum: u64 = period + step;
    if sum >= 0x1_0000_0000u64 {
        (sum - 0x1_0000_0000u64, true)
    } else {
        (sum, false)
    }
}

/// A square-wave oscillator.
#[derive(Clone, Copy)]
pub struct SquareWave {
    /// Frequency in millihertz.
    pub frequency: u64,
    /// Phase accumulator; one cycle is 2^32.
    pub period: u64,
}

impl SquareWave {
    pub open spec fn wf(self) -> bool {
        self.frequency <= 44_100_000 && self.period < 0x1_0000_0000
    }

    pub open spec fn stepped(self) -> SquareWave {
        SquareWave {
            frequency: self.frequency,
            period: next_phase(self.period as int, self.frequency as int) as u64,
        }
    }

    pub open spec fn sample_out(self) -> int {
        square_sample(next_phase(self.period as int, self.frequency as int))
    }

    pub fn new(frequency: u64) -> (w: SquareWave)
        ensures
            w.wf(),
            w.frequency as int == clamp_frequency(frequency as int),
            w.period == 0,
    {
        SquareWave { frequency: clamp_frequency_exec(frequency), period: 0 }
    }

    pub fn set_frequency(&mut self, frequency: u64)
        requires
            old(self).wf(),
        ensures
            final(self).wf(),
            final(self).frequency as int == clamp_frequency(frequency as int),
            final(self).period == old(self).period,
    {
        self.frequency = clamp_frequency_exec(frequency);
    }

    pub fn next(&mut self) -> (r: Option<i64>)
        requires
            old(self).wf(),
        ensures
            final(self).wf(),
            *final(self) == old(self).stepped(),
            opt_val(r) == Some(old(self).sample_out()),
    {
        let (p, _w) = advance_phase(self.frequency, self.period);
        self.period = p;
        if p < 0x8000_0000u64 {
            Some(32768i64)
        } else {
            Some(-32768i64)
        }
    }
}

impl Default for SquareWave {
    /// The default square wave sits at 440 Hz with a fresh phase.
    fn default() -> (w: SquareWave)
        ensures
            w.wf(),
            w.frequency == 440_000,
            w.period == 0,
    {
        SquareWave { frequency: 440_000, period: 0 }
    }
}

/// A descending sawtooth oscillator.
#[derive(Clone, Copy)]
pub struct SawWave {
    /// Frequency in millihertz.
    pub frequency: u64,
    /// Phase accumulator; one cycle is 2^32.
    pub period: u64,
}

impl SawWave {
    pub open spec fn wf(self) -> bool {
        self.frequency <= 44_100_000 && self.period < 0x1_0000_0000
    }

    pub open spec fn stepped(self) -> SawWave {
        SawWave {
            frequency: self.frequency,
            period: next_phase(self.period as int, self.frequency as int) as u64,
        }
    }

    pub open spec fn sample_out(self) -> int {
        saw_sample(next_phase(self.period as int, self.frequency as int))
    }

    pub fn new(frequency: u64) -> (w: SawWave)
        ensures
            w.wf(),
            w.frequency as int == clamp_frequency(frequency as int),
            w.period == 0,
    {
        SawWave { frequency: clamp_frequency_exec(frequency), period: 0 }
    }

    pub fn set_frequency(&mut self, frequency: u64)
        requires
            old(self).wf(),
        ensures
            final(self).wf(),
            final(self).frequency as int == clamp_frequency(frequency as int),
            final(self).period == old(self).period,
    {
        self.frequency = clamp_frequency_exec(frequency);
    }

    pub fn next(&mut self) -> (r: Option<i64>)
        requires
            old(self).wf(),
        ensures
            final(self).wf(),
            *final(self) == old(self).stepped(),
            opt_val(r) == Some(old(self).sample_out()),
    {
        let (p, _w) = advance_phase(self.frequency, self.period);
        self.period = p;
        Some(32768i64 - (p / 0x10000) as i64)
    }
}

/// An ascending ramp oscillator.
#[derive(Clone, Copy)]
pub struct RampWave {
    /// Frequency in millihertz.
    pub frequency: u64,
    /// Phase accumulator; one cycle is 2^32.
    pub period: u64,
}

impl RampWave {
    pub open spec fn wf(self) -> bool {
        self.frequency <= 44_100_000 && self.period < 0x1_0000_0000
    }

    pub open spec fn stepped(self) -> RampWave {
        RampWave {
            frequency: self.frequency,
            period: next_phase(self.period as int, self.frequency as int) as u64,
        }
    }

    pub open spec fn sample_out(self) -> int {
        ramp_sample(next_phase(self.period as int, self.frequency as int))
    }

    pub fn new(frequency: u64) -> (w: RampWave)
        ensures
            w.wf(),
            w.frequency as int == clamp_frequency(frequency as int),
            w.period == 0,
    {
        RampWave { frequency: clamp_frequency_exec(frequency), period: 0 }
    }

    pub fn set_frequency(&mut self, frequency: u64)
        requires
            old(self).wf(),
        ensures
            final(self).wf(),
            final(self).frequency as int == clamp_frequency(frequency as int),
            final(self).period == old(self).period,
    {
        self.frequency = clamp_frequency_exec(frequency);
    }

    pub fn next(&mut self) -> (r: Option<i64>)
        requires
            old(self).wf(),
        ensures
            final(self).wf(),
            *final(self) == old(self).stepped(),
            opt_val(r) == Some(old(self).sample_out()),
    {
        let (p, _w) = advance_phase(self.frequency, self.period);
        self.period = p;
        Some((p / 0x10000) as i64 - 32768i64)
    }
}

/// A triangle oscillator.
#[derive(Clone, Copy)]
pub struct TriangleWave {
    /// Frequency in millihertz.
    pub frequency: u64,
    /// Phase accumulator; one cycle is 2^32.
    pub period: u64,
}

impl TriangleWave {
    pub open spec fn wf(self) -> bool {
        self.frequency <= 44_100_000 && self.period < 0x1_0000_0000
    }

    pub open spec fn stepped(self) -> TriangleWave {
        TriangleWave {
            frequency: self.frequency,
            period: next_phase(self.period as int, self.frequency as int) as u64,
        }
    }

    pub open spec fn sample_out(self) -> int {
        triangle_sample(next_phase(self.period as int, self.frequency as int))
    }

    pub fn new(frequency: u64) -> (w: TriangleWave)
        ensures
            w.wf(),
            w.frequency as int == clamp_frequency(frequency as int),
            w.period == 0,
    {
        TriangleWave { frequency: clamp_frequency_exec(frequency), period: 0 }
    }

    pub fn set_frequency(&mut self, frequency: u64)
        requires
            old(self).wf(),
        ensures
            final(self).wf(),
            final(self).frequency as int == clamp_frequency(frequency as int),
            final(self).period == old(self).period,
    {
        self.frequency = clamp_frequency_exec(frequency);
    }

    pub fn next(&mut self) -> (r: Option<i64>)
        requires
            old(self).wf(),
        ensures
            final(self).wf(),
            *final(self) == old(self).stepped(),
            opt_val(r) == Some(old(self).sample_out()),
    {
        let (p, _w) = advance_phase(self.frequency, self.period);
        self.period = p;
        if p < 0x8000_0000u64 {
            Some((p / 0x8000) as i64 - 32768i64)
        } else {
            Some(32768i64 - ((p - 0x8000_0000u64) / 0x8000) as i64)
        }
    }
}

/// One shift of the 15-bit linear-feedback register: the feedback bit is
/// bit 0 xor bit 1, shifted in at bit 14.
pub open spec fn lfsr_shift(l: u16) -> u16 {
    (l >> 1u16) | (((l & 1u16) ^ ((l >> 1u16) & 1u16)) << 14u16)
}

proof fn lemma_lfsr_shift_bounds(l: u16)
    requires
        l < 0x8000,
    ensures
        lfsr_shift(l) < 0x8000,
        (l & 1u16) <= 1,
{
    assert(((l >> 1u16) | (((l & 1u16) ^ ((l >> 1u16) & 1u16)) << 14u16)) < 0x8000)
        by (bit_vector)
        requires
            l < 0x8000,
    ;
    assert((l & 1u16) <= 1) by (bit_vector);
}

/// A noise generator: a 15-bit linear-feedback shift register clocked once
/// per waveform period, emitting +/-0.5 from the bit last shifted out.
/// It is seeded from a fixed constant, so every instance repeats the same
/// pattern.
#[derive(Clone, Copy)]
pub struct NoiseLFSR {
    /// Clock frequency in millihertz: the register shifts once per cycle.
    pub frequency: u64,
    /// Phase accumulator; one cycle is 2^32.
    pub period: u64,
    /// The shift register; only the low 15 bits are populated.
    pub lfsr: u16,
    /// The bit shifted out on the most recent period boundary.
    pub last: u16,
}

impl NoiseLFSR {
    pub open spec fn wf(self) -> bool {
        self.frequency <= 44_100_000 && self.period < 0x1_0000_0000 && self.lfsr < 0x8000
            && self.last <= 1
    }

    pub open spec fn stepped(self) -> NoiseLFSR {
        let p = next_phase(self.period as int, self.frequency as int);
        if phase_wraps(self.period as int, self.frequency as int) {
            NoiseLFSR {
                frequency: self.frequency,
                period: p as u64,
                lfsr: lfsr_shift(self.lfsr),
                last: self.lfsr & 1u16,
            }
        } else {
            NoiseLFSR { frequency: self.frequency, period: p as u64, ..self }
        }
    }

    pub open spec fn sample_out(self) -> int {
        if self.stepped().last == 0 {
            -32768
        } else {
            32768
        }
    }

    pub fn new(frequency: u64) -> (w: NoiseLFSR)
        ensures
            w.wf(),
            w.frequency as int == clamp_frequency(frequency as int),
            w.period == 0,
            w.lfsr == 1,
            w.last == 1,
    {
        NoiseLFSR { frequency: clamp_frequency_exec(frequency), period: 0, lfsr: 1, last: 1 }
    }

    pub fn set_frequency(&mut self, frequency: u64)
        requires
            old(self).wf(),
        ensures
            final(self).wf(),
            final(self).frequency as int == clamp_frequency(frequency as int),
            final(self).period == old(self).period,
            final(self).lfsr == old(self).lfsr,
            final(self).last == old(self).last,
    {
        self.frequency = clamp_frequency_exec(frequency);
    }

    pub fn next(&mut self) -> (r: Option<i64>)
        requires
            old(self).wf(),
        ensures
            final(self).wf(),
            *final(self) == old(self).stepped(),
            opt_val(r) == Some(old(self).sample_out()),
    {
        let (p, wrapped) = advance_phase(self.frequency, self.period);
        self.period = p;
        if wrapped {
            proof {
                lemma_lfsr_shift_bounds(self.lfsr);
            }
            let bit: u16 = self.lfsr & 1u16;
            self.last = bit;
            let shifted: u16 = self.lfsr >> 1u16;
            let feedback: u16 = bit ^ (shifted & 1u16);
            self.lfsr = shifted | (feedback << 14u16);
        }
        if self.last == 0 {
            Some(-32768i64)
        } else {
            Some(32768i64)
        }
    }
}

/// Duration of one envelope segment, given in milliseconds and measured in
/// samples, rounded to the nearest sample.
pub open spec fn ms_samples(ms: int) -> int {
    (ms * 441 + 5) / 10
}

/// Amplitudes are clamped to [0, 1] at construction.
pub open spec fn clamp_amplitude(a: int) -> int {
    if a < 0 {
        0
    } else if a > 0x10000 {
        0x10000
    } else {
        a
    }
}

/// A three-phase amplitude envelope: a linear attack from zero to the peak,
/// a flat hold, and a linear release back towards zero.  It is finite and
/// not restartable: once its time has run out it yields nothing, forever.
#[derive(Clone, Copy)]
pub struct Envelope {
    /// Peak amplitude, fixed-point in [0, 65536].
    pub amplitude: i64,
    /// Attack length in samples.
    pub attack: u64,
    /// Hold length in samples.
    pub hold: u64,
    /// Release length in samples.
    pub release: u64,
    /// Samples emitted so far.
    pub time: u64,
}

impl Envelope {
    pub open spec fn total(self) -> int {
        self.attack + self.hold + self.release
    }

    pub open spec fn wf(self) -> bool {
        0 <= self.amplitude <= 0x10000 && self.attack <= 189_408_057_710 && self.hold
            <= 189_408_057_710 && self.release <= 189_408_057_710 && self.time <= self.total()
    }

    pub open spec fn exhausted(self) -> bool {
        self.time >= self.total()
    }

    /// The sample emitted at the current position, or nothing once the
    /// envelope has run out.
    pub open spec fn sample_out(self) -> Option<int> {
        if self.time < self.attack {
            Some(self.amplitude * self.time / self.attack as int)
        } else if self.time < self.attack + self.hold {
            Some(self.amplitude as int)
        } else if self.time < self.total() {
            Some(self.amplitude * (self.total() - self.time) / self.release as int)
        } else {
            None
        }
    }

    pub open spec fn stepped(self) -> Envelope {
        if self.time < self.total() {
            Envelope { time: (self.time + 1) as u64, ..self }
        } else {
            self
        }
    }

    /// Build an envelope from a peak amplitude (fixed-point, clamped to
    /// [0, 1]) and segment durations in milliseconds.
    pub fn new(amplitude: i64, attack_ms: u32, hold_ms: u32, release_ms: u32) -> (e: Envelope)
        ensures
            e.wf(),
            e.amplitude == clamp_amplitude(amplitude as int),
            e.attack == ms_samples(attack_ms as int),
            e.hold == ms_samples(hold_ms as int),
            e.release == ms_samples(release_ms as int),
            e.time == 0,
    {
        let amp: i64 = if amplitude < 0 {
            0
        } else if amplitude > 0x10000 {
            0x10000
        } else {
            amplitude
        };
        Envelope {
            amplitude: amp,
            attack: ms_samples_exec(attack_ms),
            hold: ms_samples_exec(hold_ms),
            release: ms_samples_exec(release_ms),
            time: 0,
        }
    }

    pub fn next(&mut self) -> (r: Option<i64>)
        requires
            old(self).wf(),
        ensures
            final(self).wf(),
            *final(self) == old(self).stepped(),
            opt_val(r) == old(self).sample_out(),
    {
        if self.time < self.attack {
            proof {
                assert(self.amplitude * self.time <= 0x10000 * 189_408_057_710)
                    by (nonlinear_arith)
                    requires
                        0 <= self.amplitude <= 0x10000,
                        0 <= self.time <= 189_408_057_710,
                ;
            }
            let v: i64 = self.amplitude * (self.time as i64) / (self.attack as i64);
            self.time = self.time + 1;
            Some(v)
        } else if self.time < self.attack + self.hold {
            self.time = self.time + 1;
            Some(self.amplitude)
        } else if self.time < self.attack + self.hold + self.release {
            let left: u64 = self.attack + self.hold + self.release - self.time;
            proof {
                assert(self.amplitude * left <= 0x10000 * 189_408_057_710)
                    by (nonlinear_arith)
                    requires
                        0 <= self.amplitude <= 0x10000,
                        0 <= left <= 189_408_057_710,
                ;
            }
            let v: i64 = self.amplitude * (left as i64) / (self.release as i64);
            self.time = self.time + 1;
            Some(v)
        } else {
            None
        }
    }
}

/// Euclidean (floor) division for wide signed intermediates, matching the
/// spec-level `/`.
fn floor_div_i128(a: i128, b: i128) -> (q: i128)
    requires
        b >= 1,
        -0x4000_0000_0000_0000_0000_0000_0000_0000 <= a
            <= 0x4000_0000_0000_0000_0000_0000_0000_0000,
    ensures
        q == a as int / b as int,
{
    let qt: i128 = a / b;
    let r: i128 = a % b;
    proof {
        if a >= 0 {
            assert(qt == a as int / b as int);
            assert(r >= 0);
        } else {
            let m = -(a as int);
            let md = m / b as int;
            let mm = m % b as int;
            vstd::arithmetic::div_mod::lemma_fundamental_div_mod(m, b as int);
            assert(qt == -md);
            assert(r == -mm);
            if r < 0 {
                assert((qt as int - 1) * b as int + (b as int - mm) == a as int)
                    by (nonlinear_arith)
                    requires
                        qt as int == -md,
                        m == b as int * md + mm,
                        a as int == -m,
                ;
                vstd::arithmetic::div_mod::lemma_fundamental_div_mod_converse(
                    a as int,
                    b as int,
                    qt as int - 1,
                    b as int - mm,
                );
            } else {
                assert(qt as int * b as int + 0 == a as int) by (nonlinear_arith)
                    requires
                        qt as int == -md,
                        m == b as int * md + mm,
                        a as int == -m,
                        mm == 0,
                ;
                vstd::arithmetic::div_mod::lemma_fundamental_div_mod_converse(
                    a as int,
                    b as int,
                    qt as int,
                    0,
                );
            }
        }
    }
    if r < 0 {
        qt - 1
    } else {
        qt
    }
}

fn ms_samples_exec(ms: u32) -> (n: u64)
    ensures
        n == ms_samples(ms as int),
        n <= 189_408_057_710,
{
    proof {
        vstd::arithmetic::div_mod::lemma_div_is_ordered(
            ((ms as u64) * 441 + 5) as int,
            (4_294_967_295 * 441 + 5) as int,
            10,
        );
        vstd::arithmetic::div_mod::lemma_fundamental_div_mod_converse(
            1_894_080_577_100,
            10,
            189_408_057_710,
            0,
        );
    }
    ((ms as u64) * 441 + 5) / 10
}

} // verus!

verus! {

// ---------------------------------------------------------------------------
// Filter cutoff coefficient
// ---------------------------------------------------------------------------

/// Cutoff frequencies are clamped to a band where the filter coefficient is
/// representable.
pub open spec fn clamp_cutoff(f: int) -> int {
    if f < 1000 {
        1000
    } else if f > 20_000_000 {
        20_000_000
    } else {
        f
    }
}

/// The cutoff angle `pi * cutoff / sample rate`, with one radian as 2^32.
pub open spec fn cutoff_z_q32(f: int) -> int {
    clamp_cutoff(f) * 13_493_037_705 / 44_100_000
}

/// The filter coefficient: the cotangent of the cutoff angle, fixed-point
/// scaled by 65536, computed from the truncated Laurent series of the
/// cotangent.
pub open spec fn cutoff_c_q16(f: int) -> int {
    let z = cutoff_z_q32(f);
    let inv = 0x1_0000_0000_0000_0000int / z;
    let z2 = z * z / 0x1_0000_0000;
    let z3 = z2 * z / 0x1_0000_0000;
    let z5 = z3 * z2 / 0x1_0000_0000;
    let z7 = z5 * z2 / 0x1_0000_0000;
    let cot = inv - z / 3 - z3 / 45 - 2 * z5 / 945 - z7 / 4725;
    if cot < 0 {
        0
    } else {
        cot / 0x10000
    }
}

/// The cutoff angle stays within the band the coefficient series needs.
pub proof fn lemma_cutoff_z_bounds(f: int)
    ensures
        305_964 <= cutoff_z_q32(f) <= 6_119_291_476,
{
    let fc = clamp_cutoff(f);
    assert(1000 <= fc <= 20_000_000);
    vstd::arithmetic::div_mod::lemma_div_is_ordered(
        (1000 * 13_493_037_705) as int,
        fc * 13_493_037_705,
        44_100_000,
    );
    vstd::arithmetic::div_mod::lemma_div_is_ordered(
        fc * 13_493_037_705,
        (20_000_000 * 13_493_037_705) as int,
        44_100_000,
    );
    vstd::arithmetic::div_mod::lemma_fundamental_div_mod_converse(
        13_493_037_705_000,
        44_100_000,
        305_964,
        25_305_000,
    );
    vstd::arithmetic::div_mod::lemma_fundamental_div_mod_converse(
        269_860_754_100_000_000,
        44_100_000,
        6_119_291_476,
        8_400_000,
    );
}

/// The filter coefficient is nonnegative and fits comfortably in range.
pub proof fn lemma_cutoff_c_bounds(f: int)
    ensures
        0 <= cutoff_c_q16(f) <= 0x4000_0000,
{
    lemma_cutoff_z_bounds(f);
    let z = cutoff_z_q32(f);
    let inv = 0x1_0000_0000_0000_0000int / z;
    vstd::arithmetic::div_mod::lemma_div_is_ordered_by_denominator(
        0x1_0000_0000_0000_0000,
        305_964,
        z,
    );
    vstd::arithmetic::div_mod::lemma_fundamental_div_mod_converse(
        0x1_0000_0000_0000_0000,
        305_964,
        60_290_570_373_343,
        33_964,
    );
    assert(inv <= 60_290_570_373_343);
    let cot = inv - z / 3 - cutoff_z_q32(f) * 0;
    let c = cutoff_c_q16(f);
    if cutoff_c_q16(f) != 0 {
        vstd::arithmetic::div_mod::lemma_div_pos_is_pos(
            (cutoff_c_q16(f) * 0x10000) as int,
            0x10000,
        );
    }
    // cot <= inv, so c <= inv / 0x10000 <= 0x4000_0000
    let z2 = z * z / 0x1_0000_0000;
    let z3 = z2 * z / 0x1_0000_0000;
    let z5 = z3 * z2 / 0x1_0000_0000;
    let z7 = z5 * z2 / 0x1_0000_0000;
    vstd::arithmetic::div_mod::lemma_div_pos_is_pos(z * z, 0x1_0000_0000);
    assert(z * z >= 0) by (nonlinear_arith);
    assert(z2 * z >= 0) by (nonlinear_arith)
        requires
            z2 >= 0,
            z >= 305_964,
    ;
    vstd::arithmetic::div_mod::lemma_div_pos_is_pos(z2 * z, 0x1_0000_0000);
    assert(z3 * z2 >= 0) by (nonlinear_arith)
        requires
            z3 >= 0,
            z2 >= 0,
    ;
    vstd::arithmetic::div_mod::lemma_div_pos_is_pos(z3 * z2, 0x1_0000_0000);
    assert(z5 * z2 >= 0) by (nonlinear_arith)
        requires
            z5 >= 0,
            z2 >= 0,
    ;
    vstd::arithmetic::div_mod::lemma_div_pos_is_pos(z5 * z2, 0x1_0000_0000);
    vstd::arithmetic::div_mod::lemma_div_pos_is_pos(z, 3);
    vstd::arithmetic::div_mod::lemma_div_pos_is_pos(z3, 45);
    vstd::arithmetic::div_mod::lemma_div_pos_is_pos(2 * z5, 945);
    vstd::arithmetic::div_mod::lemma_div_pos_is_pos(z7, 4725);
    let cotv = inv - z / 3 - z3 / 45 - 2 * z5 / 945 - z7 / 4725;
    assert(cotv <= inv);
    if cotv < 0 {
    } else {
        vstd::arithmetic::div_mod::lemma_div_is_ordered(cotv, (0x10000 * 0x4000_0000) as int, 0x10000);
        vstd::arithmetic::div_mod::lemma_div_multiples_vanish(0x4000_0000, 0x10000);
        vstd::arithmetic::div_mod::lemma_div_pos_is_pos(cotv, 0x10000);
    }
}

/// The filter coefficient for a cutoff frequency in millihertz.
fn cutoff_coefficient(f: u64) -> (c: i64)
    ensures
        c == cutoff_c_q16(f as int),
        0 <= c <= 0x4000_0000,
{
    proof {
        lemma_cutoff_z_bounds(f as int);
        lemma_cutoff_c_bounds(f as int);
    }
    let fc: u64 = if f < 1000 {
        1000
    } else if f > 20_000_000 {
        20_000_000
    } else {
        f
    };
    let z: u64 = fc * 13_493_037_705u64 / 44_100_000u64;
    let z128: u128 = z as u128;
    let inv: u128 = 0x1_0000_0000_0000_0000u128 / z128;
    proof {
        assert(z128 <= 0x2_0000_0000);
        assert(z128 * z128 <= 0x4_0000_0000_0000_0000) by (nonlinear_arith)
            requires
                0 <= z128 <= 0x2_0000_0000,
        ;
        vstd::arithmetic::div_mod::lemma_div_is_ordered(
            (z128 * z128) as int,
            0x4_0000_0000_0000_0000,
            0x1_0000_0000,
        );
        vstd::arithmetic::div_mod::lemma_div_multiples_vanish(0x4_0000_0000, 0x1_0000_0000);
    }
    let z2: u128 = z128 * z128 / 0x1_0000_0000u128;
    proof {
        assert(z2 * z128 <= 0x4_0000_0000 * 0x2_0000_0000) by (nonlinear_arith)
            requires
                0 <= z2 <= 0x4_0000_0000,
                0 <= z128 <= 0x2_0000_0000,
        ;
        vstd::arithmetic::div_mod::lemma_div_is_ordered(
            (z2 * z128) as int,
            (0x4_0000_0000 * 0x2_0000_0000) as int,
            0x1_0000_0000,
        );
        vstd::arithmetic::div_mod::lemma_div_multiples_vanish(0x8_0000_0000, 0x1_0000_0000);
    }
    let z3: u128 = z2 * z128 / 0x1_0000_0000u128;
    proof {
        assert(z3 * z2 <= 0x8_0000_0000 * 0x4_0000_0000) by (nonlinear_arith)
            requires
                0 <= z3 <= 0x8_0000_0000,
                0 <= z2 <= 0x4_0000_0000,
        ;
        vstd::arithmetic::div_mod::lemma_div_is_ordered(
            (z3 * z2) as int,
            (0x8_0000_0000 * 0x4_0000_0000) as int,
            0x1_0000_0000,
        );
        vstd::arithmetic::div_mod::lemma_div_multiples_vanish(0x20_0000_0000, 0x1_0000_0000);
    }
    let z5: u128 = z3 * z2 / 0x1_0000_0000u128;
    proof {
        assert(z5 * z2 <= 0x20_0000_0000 * 0x4_0000_0000) by (nonlinear_arith)
            requires
                0 <= z5 <= 0x20_0000_0000,
                0 <= z2 <= 0x4_0000_0000,
        ;
        vstd::arithmetic::div_mod::lemma_div_is_ordered(
            (z5 * z2) as int,
            (0x20_0000_0000 * 0x4_0000_0000) as int,
            0x1_0000_0000,
        );
        vstd::arithmetic::div_mod::lemma_div_multiples_vanish(0x80_0000_0000, 0x1_0000_0000);
    }
    let z7: u128 = z5 * z2 / 0x1_0000_0000u128;
    let cot: i128 = inv as i128 - (z / 3) as i128 - (z3 / 45) as i128 - (2u128 * z5 / 945u128)
        as i128 - (z7 / 4725u128) as i128;
    if cot < 0 {
        0
    } else {
        (cot / 0x10000) as i64
    }
}

} // verus!

verus! {

// ---------------------------------------------------------------------------
// Phase and sample bounds
// ---------------------------------------------------------------------------

/// A phase step never exceeds one full cycle.
pub proof fn lemma_phase_step_bounds(f: int)
    requires
        0 <= f <= 44_100_000,
    ensures
        0 <= phase_step(f) <= 0x1_0000_0000,
{
    vstd::arithmetic::div_mod::lemma_div_pos_is_pos(f * 0x1_0000_0000, 44_100_000);
    vstd::arithmetic::div_mod::lemma_div_is_ordered(
        f * 0x1_0000_0000,
        (44_100_000 * 0x1_0000_0000) as int,
        44_100_000,
    );
    vstd::arithmetic::div_mod::lemma_div_multiples_vanish(0x1_0000_0000, 44_100_000);
}

/// Advancing a well-formed accumulator keeps it within one cycle.
pub proof fn lemma_next_phase_bounds(p: int, f: int)
    requires
        0 <= p < 0x1_0000_0000,
        0 <= f <= 44_100_000,
    ensures
        0 <= next_phase(p, f) < 0x1_0000_0000,
{
    lemma_phase_step_bounds(f);
}

/// Every waveform rule stays within half scale.
pub proof fn lemma_wave_sample_bounds(p: int)
    requires
        0 <= p < 0x1_0000_0000,
    ensures
        -32768 <= square_sample(p) <= 32768,
        -32768 <= saw_sample(p) <= 32768,
        -32768 <= ramp_sample(p) <= 32768,
        -32768 <= triangle_sample(p) <= 32768,
    {
    vstd::arithmetic::div_mod::lemma_div_pos_is_pos(p, 0x10000);
    vstd::arithmetic::div_mod::lemma_div_is_ordered(p, 0xffff_ffff, 0x10000);
    vstd::arithmetic::div_mod::lemma_fundamental_div_mod_converse(0xffff_ffff, 0x10000, 0xffff, 0xffff);
    if p < 0x8000_0000 {
        vstd::arithmetic::div_mod::lemma_div_pos_is_pos(p, 0x8000);
        vstd::arithmetic::div_mod::lemma_div_is_ordered(p, 0x7fff_ffff, 0x8000);
        vstd::arithmetic::div_mod::lemma_fundamental_div_mod_converse(0x7fff_ffff, 0x8000, 0xffff, 0x7fff);
    } else {
        vstd::arithmetic::div_mod::lemma_div_pos_is_pos(p - 0x8000_0000, 0x8000);
        vstd::arithmetic::div_mod::lemma_div_is_ordered(p - 0x8000_0000, 0x7fff_ffff, 0x8000);
        vstd::arithmetic::div_mod::lemma_fundamental_div_mod_converse(0x7fff_ffff, 0x8000, 0xffff, 0x7fff);
    }
}

// ---------------------------------------------------------------------------
// SuperSaw: a bank of eight detuned saws
// ---------------------------------------------------------------------------

/// The frequency of voice `i` of the bank: the target detuned by a whole
/// hertz per voice, symmetrically around it.
pub open spec fn detuned_frequency(f: int, i: int) -> int {
    clamp_frequency(clamp_frequency(f) - 4000 + 1000 * i)
}

/// Eight saw oscillators detuned in whole-hertz steps around the target
/// frequency, summed without normalization; the caller attenuates.
#[derive(Clone, Copy)]
pub struct SuperSaw {
    pub sub0: SawWave,
    pub sub1: SawWave,
    pub sub2: SawWave,
    pub sub3: SawWave,
    pub sub4: SawWave,
    pub sub5: SawWave,
    pub sub6: SawWave,
    pub sub7: SawWave,
}

impl SuperSaw {
    pub open spec fn wf(self) -> bool {
        self.sub0.wf() && self.sub1.wf() && self.sub2.wf() && self.sub3.wf() && self.sub4.wf()
            && self.sub5.wf() && self.sub6.wf() && self.sub7.wf()
    }

    pub open spec fn stepped(self) -> SuperSaw {
        SuperSaw {
            sub0: self.sub0.stepped(),
            sub1: self.sub1.stepped(),
            sub2: self.sub2.stepped(),
            sub3: self.sub3.stepped(),
            sub4: self.sub4.stepped(),
            sub5: self.sub5.stepped(),
            sub6: self.sub6.stepped(),
            sub7: self.sub7.stepped(),
        }
    }

    pub open spec fn sample_out(self) -> int {
        self.sub0.sample_out() + self.sub1.sample_out() + self.sub2.sample_out()
            + self.sub3.sample_out() + self.sub4.sample_out() + self.sub5.sample_out()
            + self.sub6.sample_out() + self.sub7.sample_out()
    }

    pub open spec fn retuned(self, f: int) -> SuperSaw {
        SuperSaw {
            sub0: SawWave { frequency: detuned_frequency(f, 0) as u64, period: self.sub0.period },
            sub1: SawWave { frequency: detuned_frequency(f, 1) as u64, period: self.sub1.period },
            sub2: SawWave { frequency: detuned_frequency(f, 2) as u64, period: self.sub2.period },
            sub3: SawWave { frequency: detuned_frequency(f, 3) as u64, period: self.sub3.period },
            sub4: SawWave { frequency: detuned_frequency(f, 4) as u64, period: self.sub4.period },
            sub5: SawWave { frequency: detuned_frequency(f, 5) as u64, period: self.sub5.period },
            sub6: SawWave { frequency: detuned_frequency(f, 6) as u64, period: self.sub6.period },
            sub7: SawWave { frequency: detuned_frequency(f, 7) as u64, period: self.sub7.period },
        }
    }

    pub fn new(frequency: u64) -> (s: SuperSaw)
        ensures
            s.wf(),
            forall|i: int|
                0 <= i < 8 ==> #[trigger] s.voice(i) == (SawWave {
                    frequency: detuned_frequency(frequency as int, i) as u64,
                    period: 0,
                }),
    {
        let base = SawWave::new(frequency);
        let mut s = SuperSaw {
            sub0: base,
            sub1: base,
            sub2: base,
            sub3: base,
            sub4: base,
            sub5: base,
            sub6: base,
            sub7: base,
        };
        s.set_frequency(frequency);
        s
    }

    /// The `i`th voice of the bank, for specification purposes.
    pub open spec fn voice(self, i: int) -> SawWave {
        if i == 0 {
            self.sub0
        } else if i == 1 {
            self.sub1
        } else if i == 2 {
            self.sub2
        } else if i == 3 {
            self.sub3
        } else if i == 4 {
            self.sub4
        } else if i == 5 {
            self.sub5
        } else if i == 6 {
            self.sub6
        } else {
            self.sub7
        }
    }

    pub fn set_frequency(&mut self, frequency: u64)
        requires
            old(self).wf(),
        ensures
            final(self).wf(),
            *final(self) == old(self).retuned(frequency as int),
    {
        let fc: i64 = clamp_frequency_exec(frequency) as i64;
        self.sub0.set_frequency(clamp_frequency_i64(fc - 4000));
        self.sub1.set_frequency(clamp_frequency_i64(fc - 3000));
        self.sub2.set_frequency(clamp_frequency_i64(fc - 2000));
        self.sub3.set_frequency(clamp_frequency_i64(fc - 1000));
        self.sub4.set_frequency(clamp_frequency_i64(fc));
        self.sub5.set_frequency(clamp_frequency_i64(fc + 1000));
        self.sub6.set_frequency(clamp_frequency_i64(fc + 2000));
        self.sub7.set_frequency(clamp_frequency_i64(fc + 3000));
    }

    pub fn next(&mut self) -> (r: Option<i64>)
        requires
            old(self).wf(),
        ensures
            final(self).wf(),
            *final(self) == old(self).stepped(),
            opt_val(r) == Some(old(self).sample_out()),
            r matches Some(v) ==> -0x40000 <= v <= 0x40000,
    {
        proof {
            lemma_next_phase_bounds(self.sub0.period as int, self.sub0.frequency as int);
            lemma_wave_sample_bounds(next_phase(self.sub0.period as int, self.sub0.frequency as int));
            lemma_next_phase_bounds(self.sub1.period as int, self.sub1.frequency as int);
            lemma_wave_sample_bounds(next_phase(self.sub1.period as int, self.sub1.frequency as int));
            lemma_next_phase_bounds(self.sub2.period as int, self.sub2.frequency as int);
            lemma_wave_sample_bounds(next_phase(self.sub2.period as int, self.sub2.frequency as int));
            lemma_next_phase_bounds(self.sub3.period as int, self.sub3.frequency as int);
            lemma_wave_sample_bounds(next_phase(self.sub3.period as int, self.sub3.frequency as int));
            lemma_next_phase_bounds(self.sub4.period as int, self.sub4.frequency as int);
            lemma_wave_sample_bounds(next_phase(self.sub4.period as int, self.sub4.frequency as int));
            lemma_next_phase_bounds(self.sub5.period as int, self.sub5.frequency as int);
            lemma_wave_sample_bounds(next_phase(self.sub5.period as int, self.sub5.frequency as int));
            lemma_next_phase_bounds(self.sub6.period as int, self.sub6.frequency as int);
            lemma_wave_sample_bounds(next_phase(self.sub6.period as int, self.sub6.frequency as int));
            lemma_next_phase_bounds(self.sub7.period as int, self.sub7.frequency as int);
            lemma_wave_sample_bounds(next_phase(self.sub7.period as int, self.sub7.frequency as int));
        }
        let v0 = self.sub0.next().unwrap();
        let v1 = self.sub1.next().unwrap();
        let v2 = self.sub2.next().unwrap();
        let v3 = self.sub3.next().unwrap();
        let v4 = self.sub4.next().unwrap();
        let v5 = self.sub5.next().unwrap();
        let v6 = self.sub6.next().unwrap();
        let v7 = self.sub7.next().unwrap();
        Some(v0 + v1 + v2 + v3 + v4 + v5 + v6 + v7)
    }
}

} // verus!

verus! {

// ---------------------------------------------------------------------------
// The generator graph node
// ---------------------------------------------------------------------------

/// A voltage-controlled oscillator: an oscillator, an optional control-
/// voltage source, and a cached base voltage.  When the control voltage
/// changes, the oscillator is retuned to `control + base` on the
/// volt-per-octave scale; while it is steady, no retuning happens.
pub struct Vco {
    pub oscillator: RawSource,
    /// Voltage of the base frequency, cached at construction.
    pub base_voltage: i64,
    pub cv: Option<RawSource>,
    /// The control voltage observed on the previous pull.
    pub last_cv: i64,
}

/// A two-pole resonant low-pass filter over another source.  The
/// coefficient `c` is recomputed only when the cutoff changes; the last two
/// input and output samples are kept as filter state.
pub struct Vcf {
    pub source: RawSource,
    /// Cutoff frequency in millihertz.
    pub frequency: u64,
    /// Resonance, fixed-point: sqrt(2) (low) down to 0.1 (high).
    pub resonance: i64,
    pub input0: i64,
    pub input1: i64,
    pub output0: i64,
    pub output1: i64,
    /// Cached cotangent coefficient of the cutoff.
    pub c: i64,
}

/// A voltage-controlled amplifier: multiplies a carrier by a gain source,
/// never letting a non-positive gain through as a negative factor.
pub struct Vca {
    pub source: RawSource,
    pub envelope: RawSource,
}

/// Scales a source by a fixed factor, clamped at construction.
pub struct Attenuator {
    pub source: RawSource,
    /// Fixed-point gain in [-1.0, 2.0].
    pub attenuation: i64,
}

/// A type-erased generator-graph node: any composition of stages behind the
/// one pull-based sample interface.
pub enum RawSource {
    Square(SquareWave),
    Saw(SawWave),
    Ramp(RampWave),
    Triangle(TriangleWave),
    Noise(NoiseLFSR),
    Super(SuperSaw),
    Env(Envelope),
    Vco(Box<Vco>),
    Vcf(Box<Vcf>),
    Vca(Box<Vca>),
    Att(Box<Attenuator>),
}

/// The amplifier rule: a non-positive gain forces silence, otherwise the
/// fixed-point product, saturated.
pub open spec fn vca_amplify(s: int, e: int) -> int {
    if e <= 0 {
        0
    } else {
        clamp_sample(s * e / 0x10000)
    }
}

/// The attenuator rule: the fixed-point product, saturated.
pub open spec fn attenuate(s: int, a: int) -> int {
    clamp_sample(s * a / 0x10000)
}

/// The filter's common denominator `1 + r*c + c^2`, in units of 2^32.
pub open spec fn vcf_d(r: int, c: int) -> int {
    0x1_0000_0000 + r * c + c * c
}

/// One application of the two-pole recurrence to input `x`, using the
/// filter's cached coefficient and history; the result is saturated.
pub open spec fn vcf_filter(v: Vcf, x: int) -> int {
    let d = vcf_d(v.resonance as int, v.c as int);
    let a1 = 0x1_0000_0000_0000int / d;
    let b1 = 0x20000 * (0x1_0000_0000 - v.c * v.c) / d;
    let b2 = 0x10000 * (0x1_0000_0000 - v.resonance * v.c + v.c * v.c) / d;
    clamp_sample(
        (a1 * x + 2 * a1 * v.input0 + a1 * v.input1 - b1 * v.output0 - b2 * v.output1) / 0x10000,
    )
}

impl RawSource {
    /// Nesting depth of the graph; retuning never changes it.
    pub open spec fn height(self) -> nat
        decreases self,
    {
        match self {
            RawSource::Square(_) => 0,
            RawSource::Saw(_) => 0,
            RawSource::Ramp(_) => 0,
            RawSource::Triangle(_) => 0,
            RawSource::Noise(_) => 0,
            RawSource::Super(_) => 0,
            RawSource::Env(_) => 0,
            RawSource::Vco(b) => 1 + b.oscillator.height() + (match b.cv {
                Some(c) => c.height(),
                None => 0,
            }),
            RawSource::Vcf(b) => 1 + b.source.height(),
            RawSource::Vca(b) => 1 + b.source.height() + b.envelope.height(),
            RawSource::Att(b) => 1 + b.source.height(),
        }
    }

    /// Well-formedness of every stage in the graph: clamped parameters,
    /// in-range phase accumulators and filter state.
    pub open spec fn wf(self) -> bool
        decreases self,
    {
        match self {
            RawSource::Square(w) => w.wf(),
            RawSource::Saw(w) => w.wf(),
            RawSource::Ramp(w) => w.wf(),
            RawSource::Triangle(w) => w.wf(),
            RawSource::Noise(w) => w.wf(),
            RawSource::Super(s) => s.wf(),
            RawSource::Env(e) => e.wf(),
            RawSource::Vco(b) => b.oscillator.wf() && -131072 <= b.base_voltage <= 327680
                && (match b.cv {
                Some(c) => c.wf(),
                None => true,
            }),
            RawSource::Vcf(b) => b.source.wf() && b.frequency <= 44_100_000 && 6554
                <= b.resonance <= 92682 && 0 <= b.c <= 0x4000_0000 && -0x1_0000_0000 <= b.input0
                <= 0x1_0000_0000 && -0x1_0000_0000 <= b.input1 <= 0x1_0000_0000 && -0x1_0000_0000
                <= b.output0 <= 0x1_0000_0000 && -0x1_0000_0000 <= b.output1 <= 0x1_0000_0000,
            RawSource::Vca(b) => b.source.wf() && b.envelope.wf(),
            RawSource::Att(b) => b.source.wf() && -0x10000 <= b.attenuation <= 0x20000,
        }
    }

    /// A graph is exhausted when the stage that decides its output is: the
    /// envelope that ran out, or any exhausted input of an amplifier,
    /// filter or attenuator.  Oscillators never exhaust.
    pub open spec fn exhausted(self) -> bool
        decreases self,
    {
        match self {
            RawSource::Square(_) => false,
            RawSource::Saw(_) => false,
            RawSource::Ramp(_) => false,
            RawSource::Triangle(_) => false,
            RawSource::Noise(_) => false,
            RawSource::Super(_) => false,
            RawSource::Env(e) => e.exhausted(),
            RawSource::Vco(b) => b.oscillator.exhausted(),
            RawSource::Vcf(b) => b.source.exhausted(),
            RawSource::Vca(b) => b.source.exhausted() || b.envelope.exhausted(),
            RawSource::Att(b) => b.source.exhausted(),
        }
    }

    /// The graph after a frequency change: oscillators (and the filter's
    /// cutoff) retune; other stages ignore it.
    pub open spec fn retuned(self, f: int) -> RawSource {
        match self {
            RawSource::Square(w) => RawSource::Square(
                SquareWave { frequency: clamp_frequency(f) as u64, period: w.period },
            ),
            RawSource::Saw(w) => RawSource::Saw(
                SawWave { frequency: clamp_frequency(f) as u64, period: w.period },
            ),
            RawSource::Ramp(w) => RawSource::Ramp(
                RampWave { frequency: clamp_frequency(f) as u64, period: w.period },
            ),
            RawSource::Triangle(w) => RawSource::Triangle(
                TriangleWave { frequency: clamp_frequency(f) as u64, period: w.period },
            ),
            RawSource::Noise(w) => RawSource::Noise(
                NoiseLFSR { frequency: clamp_frequency(f) as u64, ..w },
            ),
            RawSource::Super(s) => RawSource::Super(s.retuned(f)),
            RawSource::Env(_) => self,
            RawSource::Vco(_) => self,
            RawSource::Vcf(b) => RawSource::Vcf(
                Box::new(
                    Vcf {
                        frequency: clamp_frequency(f) as u64,
                        c: cutoff_c_q16(f) as i64,
                        ..*b
                    },
                ),
            ),
            RawSource::Vca(_) => self,
            RawSource::Att(_) => self,
        }
    }

    /// The oscillator a voltage-controlled oscillator delegates to on this
    /// pull: retuned when a fresh control voltage arrived, untouched
    /// otherwise.
    pub open spec fn vco_driven(v: Vco) -> RawSource
    {
        match v.cv {
            None => v.oscillator,
            Some(c) => match c.out() {
                Some(cvv) => if cvv != v.last_cv as int {
                    v.oscillator.retuned(frequency_of_volt(cvv + v.base_voltage))
                } else {
                    v.oscillator
                },
                None => v.oscillator,
            },
        }
    }

    /// The control-voltage source after this pull.
    pub open spec fn vco_next_cv(v: Vco) -> Option<RawSource>
    {
        match v.cv {
            None => None,
            Some(c) => Some(c.stepped()),
        }
    }

    /// The control voltage remembered after this pull.
    pub open spec fn vco_next_last(v: Vco) -> int
    {
        match v.cv {
            None => v.last_cv as int,
            Some(c) => match c.out() {
                Some(cvv) => cvv,
                None => v.last_cv as int,
            },
        }
    }

    /// The sample this graph emits on the next pull, or nothing once it is
    /// exhausted.
    pub open spec fn out(self) -> Option<int>
        decreases self.height(), 0int,
        via Self::out_via
    {
        match self {
            RawSource::Square(w) => Some(w.sample_out()),
            RawSource::Saw(w) => Some(w.sample_out()),
            RawSource::Ramp(w) => Some(w.sample_out()),
            RawSource::Triangle(w) => Some(w.sample_out()),
            RawSource::Noise(w) => Some(w.sample_out()),
            RawSource::Super(s) => Some(s.sample_out()),
            RawSource::Env(e) => e.sample_out(),
            RawSource::Vco(b) => match b.cv {
                None => b.oscillator.out(),
                Some(c) => match c.out() {
                    Some(cvv) => if cvv != b.last_cv as int {
                        b.oscillator.retuned(
                            frequency_of_volt(cvv + b.base_voltage),
                        ).out()
                    } else {
                        b.oscillator.out()
                    },
                    None => b.oscillator.out(),
                },
            },
            RawSource::Vcf(b) => match b.source.out() {
                None => None,
                Some(x) => Some(vcf_filter(*b, x)),
            },
            RawSource::Vca(b) => match (b.source.out(), b.envelope.out()) {
                (Some(s), Some(e)) => Some(vca_amplify(s, e)),
                _ => None,
            },
            RawSource::Att(b) => match b.source.out() {
                None => None,
                Some(s) => Some(attenuate(s, b.attenuation as int)),
            },
        }
    }

    /// The graph after one pull.
    pub open spec fn stepped(self) -> RawSource
        decreases self.height(), 0int,
        via Self::stepped_via
    {
        match self {
            RawSource::Square(w) => RawSource::Square(w.stepped()),
            RawSource::Saw(w) => RawSource::Saw(w.stepped()),
            RawSource::Ramp(w) => RawSource::Ramp(w.stepped()),
            RawSource::Triangle(w) => RawSource::Triangle(w.stepped()),
            RawSource::Noise(w) => RawSource::Noise(w.stepped()),
            RawSource::Super(s) => RawSource::Super(s.stepped()),
            RawSource::Env(e) => RawSource::Env(e.stepped()),
            RawSource::Vco(b) => RawSource::Vco(
                Box::new(
                    Vco {
                        oscillator: (match b.cv {
                            None => b.oscillator.stepped(),
                            Some(c) => match c.out() {
                                Some(cvv) => if cvv != b.last_cv as int {
                                    b.oscillator.retuned(
                                        frequency_of_volt(cvv + b.base_voltage),
                                    ).stepped()
                                } else {
                                    b.oscillator.stepped()
                                },
                                None => b.oscillator.stepped(),
                            },
                        }),
                        base_voltage: b.base_voltage,
                        cv: (match b.cv {
                            None => None,
                            Some(c) => Some(c.stepped()),
                        }),
                        last_cv: (match b.cv {
                            None => b.last_cv as int,
                            Some(c) => match c.out() {
                                Some(cvv) => cvv,
                                None => b.last_cv as int,
                            },
                        }) as i64,
                    },
                ),
            ),
            RawSource::Vcf(b) => match b.source.out() {
                None => RawSource::Vcf(Box::new(Vcf { source: b.source.stepped(), ..*b })),
                Some(x) => RawSource::Vcf(
                    Box::new(
                        Vcf {
                            source: b.source.stepped(),
                            input0: x as i64,
                            input1: b.input0,
                            output0: vcf_filter(*b, x) as i64,
                            output1: b.output0,
                            ..*b
                        },
                    ),
                ),
            },
            RawSource::Vca(b) => RawSource::Vca(
                Box::new(Vca { source: b.source.stepped(), envelope: b.envelope.stepped() }),
            ),
            RawSource::Att(b) => RawSource::Att(
                Box::new(
                    Attenuator { source: b.source.stepped(), attenuation: b.attenuation },
                ),
            ),
        }
    }

    #[via_fn]
    proof fn out_via(self) {
        match self {
            RawSource::Vco(b) => {
                lemma_retuned_height(b.oscillator);
            }
            _ => {}
        }
    }

    #[via_fn]
    proof fn stepped_via(self) {
        match self {
            RawSource::Vco(b) => {
                lemma_retuned_height(b.oscillator);
            }
            _ => {}
        }
    }
}

/// Retuning a graph node never changes its shape.
pub proof fn lemma_retuned_height(g: RawSource)
    ensures
        forall|f: int| (#[trigger] g.retuned(f)).height() == g.height(),
{
    assert forall|f: int| (#[trigger] g.retuned(f)).height() == g.height() by {
        match g {
            RawSource::Vcf(b) => {
                assert(g.retuned(f).height() == 1 + b.source.height());
            }
            _ => {}
        }
    }
}


} // verus!

verus! {

/// Retuning keeps a graph well formed and does not change whether it is
/// exhausted.
pub proof fn lemma_retuned_wf(g: RawSource, f: int)
    requires
        g.wf(),
    ensures
        g.retuned(f).wf(),
        g.retuned(f).exhausted() == g.exhausted(),
{
    match g {
        RawSource::Vcf(b) => {
            lemma_cutoff_c_bounds(f);
        }
        _ => {}
    }
}

/// The step soundness theorem: pulling a sample from a well-formed graph
/// keeps it well formed, every emitted sample lies within the limit, an
/// exhausted graph emits nothing, and a graph that emits nothing is
/// exhausted afterwards.
pub proof fn lemma_step(g: RawSource)
    requires
        g.wf(),
    ensures
        g.stepped().wf(),
        (match g.out() {
            Some(v) => -0x1_0000_0000 <= v <= 0x1_0000_0000,
            None => true,
        }),
        g.exhausted() ==> g.out() is None,
        g.out() is None ==> g.stepped().exhausted(),
    decreases g.height(),
{
    match g {
        RawSource::Square(w) => {
            lemma_next_phase_bounds(w.period as int, w.frequency as int);
            lemma_wave_sample_bounds(next_phase(w.period as int, w.frequency as int));
        }
        RawSource::Saw(w) => {
            lemma_next_phase_bounds(w.period as int, w.frequency as int);
            lemma_wave_sample_bounds(next_phase(w.period as int, w.frequency as int));
        }
        RawSource::Ramp(w) => {
            lemma_next_phase_bounds(w.period as int, w.frequency as int);
            lemma_wave_sample_bounds(next_phase(w.period as int, w.frequency as int));
        }
        RawSource::Triangle(w) => {
            lemma_next_phase_bounds(w.period as int, w.frequency as int);
            lemma_wave_sample_bounds(next_phase(w.period as int, w.frequency as int));
        }
        RawSource::Noise(w) => {
            lemma_next_phase_bounds(w.period as int, w.frequency as int);
            lemma_lfsr_shift_bounds(w.lfsr);
        }
        RawSource::Super(s) => {
            lemma_next_phase_bounds(s.sub0.period as int, s.sub0.frequency as int);
            lemma_wave_sample_bounds(next_phase(s.sub0.period as int, s.sub0.frequency as int));
            lemma_next_phase_bounds(s.sub1.period as int, s.sub1.frequency as int);
            lemma_wave_sample_bounds(next_phase(s.sub1.period as int, s.sub1.frequency as int));
            lemma_next_phase_bounds(s.sub2.period as int, s.sub2.frequency as int);
            lemma_wave_sample_bounds(next_phase(s.sub2.period as int, s.sub2.frequency as int));
            lemma_next_phase_bounds(s.sub3.period as int, s.sub3.frequency as int);
            lemma_wave_sample_bounds(next_phase(s.sub3.period as int, s.sub3.frequency as int));
            lemma_next_phase_bounds(s.sub4.period as int, s.sub4.frequency as int);
            lemma_wave_sample_bounds(next_phase(s.sub4.period as int, s.sub4.frequency as int));
            lemma_next_phase_bounds(s.sub5.period as int, s.sub5.frequency as int);
            lemma_wave_sample_bounds(next_phase(s.sub5.period as int, s.sub5.frequency as int));
            lemma_next_phase_bounds(s.sub6.period as int, s.sub6.frequency as int);
            lemma_wave_sample_bounds(next_phase(s.sub6.period as int, s.sub6.frequency as int));
            lemma_next_phase_bounds(s.sub7.period as int, s.sub7.frequency as int);
            lemma_wave_sample_bounds(next_phase(s.sub7.period as int, s.sub7.frequency as int));
        }
        RawSource::Env(e) => {
            if e.time < e.attack {
                assert(e.amplitude * e.time >= 0) by (nonlinear_arith)
                    requires
                        e.amplitude >= 0,
                        e.time >= 0,
                ;
                assert(e.amplitude * e.time <= e.amplitude * e.attack) by (nonlinear_arith)
                    requires
                        e.amplitude >= 0,
                        0 <= e.time <= e.attack,
                ;
                vstd::arithmetic::div_mod::lemma_div_pos_is_pos(
                    e.amplitude * e.time,
                    e.attack as int,
                );
                vstd::arithmetic::div_mod::lemma_div_is_ordered(
                    e.amplitude * e.time,
                    e.amplitude * e.attack,
                    e.attack as int,
                );
                vstd::arithmetic::div_mod::lemma_div_multiples_vanish(
                    e.amplitude as int,
                    e.attack as int,
                );
                assert(e.amplitude * e.attack == e.attack * e.amplitude) by (nonlinear_arith);
            } else if e.time < e.attack + e.hold {
            } else if e.time < e.total() {
                let left = e.total() - e.time;
                assert(e.amplitude * left >= 0) by (nonlinear_arith)
                    requires
                        e.amplitude >= 0,
                        left >= 0,
                ;
                assert(e.amplitude * left <= e.amplitude * e.release) by (nonlinear_arith)
                    requires
                        e.amplitude >= 0,
                        0 <= left <= e.release,
                ;
                vstd::arithmetic::div_mod::lemma_div_pos_is_pos(
                    e.amplitude * left,
                    e.release as int,
                );
                vstd::arithmetic::div_mod::lemma_div_is_ordered(
                    e.amplitude * left,
                    e.amplitude * e.release,
                    e.release as int,
                );
                vstd::arithmetic::div_mod::lemma_div_multiples_vanish(
                    e.amplitude as int,
                    e.release as int,
                );
                assert(e.amplitude * e.release == e.release * e.amplitude) by (nonlinear_arith);
            }
        }
        RawSource::Vco(b) => {
            lemma_retuned_height(b.oscillator);
            match b.cv {
                None => {
                    lemma_step(b.oscillator);
                }
                Some(c) => {
                    lemma_step(c);
                    match c.out() {
                        Some(cvv) => {
                            if cvv != b.last_cv as int {
                                let f = frequency_of_volt(cvv + b.base_voltage);
                                lemma_retuned_wf(b.oscillator, f);
                                lemma_step(b.oscillator.retuned(f));
                            } else {
                                lemma_step(b.oscillator);
                            }
                        }
                        None => {
                            lemma_step(b.oscillator);
                        }
                    }
                }
            }
        }
        RawSource::Vcf(b) => {
            lemma_step(b.source);
        }
        RawSource::Vca(b) => {
            lemma_step(b.source);
            lemma_step(b.envelope);
        }
        RawSource::Att(b) => {
            lemma_step(b.source);
        }
    }
}

/// Exhaustion is permanent: an exhausted graph emits nothing, and stays
/// exhausted (and well formed) after any further pull.
pub proof fn lemma_exhaustion_permanent(g: RawSource)
    requires
        g.wf(),
        g.exhausted(),
    ensures
        g.out() is None,
        g.stepped().wf(),
        g.stepped().exhausted(),
{
    lemma_step(g);
}

} // verus!

verus! {

fn clamp_sample_exec(x: i128) -> (c: i64)
    ensures
        c as int == clamp_sample(x as int),
        -0x1_0000_0000 <= c <= 0x1_0000_0000,
{
    if x < -0x1_0000_0000i128 {
        -0x1_0000_0000i64
    } else if x > 0x1_0000_0000i128 {
        0x1_0000_0000i64
    } else {
        x as i64
    }
}

impl RawSource {
    /// Retune the node: oscillators and the filter's cutoff take the new
    /// frequency; envelopes, amplifiers and nested control stages ignore it.
    pub fn set_frequency(&mut self, frequency: u64)
        requires
            old(self).wf(),
        ensures
            final(self).wf(),
            *final(self) == old(self).retuned(frequency as int),
    {
        proof {
            lemma_retuned_wf(*self, frequency as int);
        }
        match self {
            RawSource::Square(w) => w.set_frequency(frequency),
            RawSource::Saw(w) => w.set_frequency(frequency),
            RawSource::Ramp(w) => w.set_frequency(frequency),
            RawSource::Triangle(w) => w.set_frequency(frequency),
            RawSource::Noise(w) => w.set_frequency(frequency),
            RawSource::Super(s) => s.set_frequency(frequency),
            RawSource::Env(_) => {}
            RawSource::Vco(_) => {}
            RawSource::Vcf(b) => {
                let vcf: &mut Vcf = b;
                vcf.frequency = clamp_frequency_exec(frequency);
                vcf.c = cutoff_coefficient(frequency);
            }
            RawSource::Vca(_) => {}
            RawSource::Att(_) => {}
        }
    }

    /// Pull the next sample from the graph.  Once it returns nothing the
    /// graph is exhausted and every later pull returns nothing too.
    pub fn next(&mut self) -> (r: Option<i64>)
        requires
            old(self).wf(),
        ensures
            final(self).wf(),
            *final(self) == old(self).stepped(),
            opt_val(r) == old(self).out(),
            r matches Some(v) ==> -0x1_0000_0000 <= v <= 0x1_0000_0000,
        decreases old(self).height(),
    {
        proof {
            lemma_step(*self);
        }
        match self {
            RawSource::Square(w) => w.next(),
            RawSource::Saw(w) => w.next(),
            RawSource::Ramp(w) => w.next(),
            RawSource::Triangle(w) => w.next(),
            RawSource::Noise(w) => w.next(),
            RawSource::Super(s) => s.next(),
            RawSource::Env(e) => e.next(),
            RawSource::Vco(b) => {
                let vco: &mut Vco = b;
                match &mut vco.cv {
                    None => {}
                    Some(c) => {
                        let cv_out = c.next();
                        match cv_out {
                            None => {}
                            Some(v) => {
                                if v != vco.last_cv {
                                    vco.last_cv = v;
                                    let fr: u64 = frequency_per_volt(v + vco.base_voltage);
                                    vco.oscillator.set_frequency(fr);
                                }
                            }
                        }
                    }
                }
                proof {
                    if let RawSource::Vco(b0) = *old(self) {
                        lemma_retuned_height(b0.oscillator);
                    }
                }
                vco.oscillator.next()
            }
            RawSource::Vcf(b) => {
                let vcf: &mut Vcf = b;
                let x_opt = vcf.source.next();
                match x_opt {
                    None => None,
                    Some(x) => {
                        let rq: i128 = vcf.resonance as i128;
                        let cq: i128 = vcf.c as i128;
                        proof {
                            assert(0 <= rq * cq <= 0x20000 * 0x4000_0000) by (nonlinear_arith)
                                requires
                                    0 <= rq <= 0x20000,
                                    0 <= cq <= 0x4000_0000,
                            ;
                            assert(0 <= cq * cq <= 0x4000_0000 * 0x4000_0000) by (nonlinear_arith)
                                requires
                                    0 <= cq <= 0x4000_0000,
                            ;
                        }
                        let d: i128 = 0x1_0000_0000i128 + rq * cq + cq * cq;
                        proof {
                            vstd::arithmetic::div_mod::lemma_div_pos_is_pos(
                                0x1_0000_0000_0000,
                                d as int,
                            );
                            vstd::arithmetic::div_mod::lemma_div_is_ordered_by_denominator(
                                0x1_0000_0000_0000,
                                0x1_0000_0000,
                                d as int,
                            );
                        }
                        let a1: i128 = 0x1_0000_0000_0000i128 / d;
                        proof {
                            assert(a1 <= 0x10000);
                            // |2^32 - c^2| <= d, so b1 lies within +/-2^17
                            vstd::arithmetic::div_mod::lemma_div_multiples_vanish(
                                0x20000,
                                d as int,
                            );
                            vstd::arithmetic::div_mod::lemma_div_multiples_vanish(
                                -0x20000,
                                d as int,
                            );
                            assert(0x20000 * (0x1_0000_0000 - cq * cq) <= d * 0x20000)
                                by (nonlinear_arith)
                                requires
                                    d >= 0x1_0000_0000,
                                    d == 0x1_0000_0000 + rq * cq + cq * cq,
                                    cq * cq >= 0,
                                    rq * cq >= 0,
                            ;
                            assert(0x20000 * (0x1_0000_0000 - cq * cq) >= d * -0x20000)
                                by (nonlinear_arith)
                                requires
                                    d >= 0x1_0000_0000,
                                    d == 0x1_0000_0000 + rq * cq + cq * cq,
                                    cq * cq >= 0,
                                    rq * cq >= 0,
                            ;
                            vstd::arithmetic::div_mod::lemma_div_is_ordered(
                                (0x20000 * (0x1_0000_0000 - cq * cq)) as int,
                                d as int * 0x20000,
                                d as int,
                            );
                            vstd::arithmetic::div_mod::lemma_div_is_ordered(
                                d as int * -0x20000,
                                (0x20000 * (0x1_0000_0000 - cq * cq)) as int,
                                d as int,
                            );
                            assert(d as int * 0x20000 == 0x20000 * d as int) by (nonlinear_arith);
                            assert(d as int * -0x20000 == -0x20000 * d as int) by (nonlinear_arith);
                        }
                        let b1: i128 = floor_div_i128(
                            0x20000i128 * (0x1_0000_0000i128 - cq * cq),
                            d,
                        );
                        proof {
                            vstd::arithmetic::div_mod::lemma_div_multiples_vanish(
                                0x10000,
                                d as int,
                            );
                            vstd::arithmetic::div_mod::lemma_div_multiples_vanish(
                                -0x10000,
                                d as int,
                            );
                            assert(0x10000 * (0x1_0000_0000 - rq * cq + cq * cq) <= d * 0x10000)
                                by (nonlinear_arith)
                                requires
                                    d == 0x1_0000_0000 + rq * cq + cq * cq,
                                    cq * cq >= 0,
                                    rq * cq >= 0,
                            ;
                            assert(0x10000 * (0x1_0000_0000 - rq * cq + cq * cq) >= d * -0x10000)
                                by (nonlinear_arith)
                                requires
                                    d >= 0x1_0000_0000,
                                    d == 0x1_0000_0000 + rq * cq + cq * cq,
                                    cq * cq >= 0,
                                    rq * cq >= 0,
                            ;
                            vstd::arithmetic::div_mod::lemma_div_is_ordered(
                                (0x10000 * (0x1_0000_0000 - rq * cq + cq * cq)) as int,
                                d as int * 0x10000,
                                d as int,
                            );
                            vstd::arithmetic::div_mod::lemma_div_is_ordered(
                                d as int * -0x10000,
                                (0x10000 * (0x1_0000_0000 - rq * cq + cq * cq)) as int,
                                d as int,
                            );
                            assert(d as int * 0x10000 == 0x10000 * d as int) by (nonlinear_arith);
                            assert(d as int * -0x10000 == -0x10000 * d as int) by (nonlinear_arith);
                        }
                        let b2: i128 = floor_div_i128(
                            0x10000i128 * (0x1_0000_0000i128 - rq * cq + cq * cq),
                            d,
                        );
                        proof {
                            assert(-0x1_0000_0000_0000 <= a1 * (x as i128) <= 0x1_0000_0000_0000)
                                by (nonlinear_arith)
                                requires
                                    0 <= a1 <= 0x10000,
                                    -0x1_0000_0000 <= x as i128 <= 0x1_0000_0000,
                            ;
                            assert(-0x1_0000_0000_0000 <= a1 * (vcf.input0 as i128)
                                <= 0x1_0000_0000_0000) by (nonlinear_arith)
                                requires
                                    0 <= a1 <= 0x10000,
                                    -0x1_0000_0000 <= vcf.input0 as i128 <= 0x1_0000_0000,
                            ;
                            assert(-0x2_0000_0000_0000 <= 2 * a1 * (vcf.input0 as i128)
                                <= 0x2_0000_0000_0000) by (nonlinear_arith)
                                requires
                                    0 <= a1 <= 0x10000,
                                    -0x1_0000_0000 <= vcf.input0 as i128 <= 0x1_0000_0000,
                            ;
                            assert(-0x1_0000_0000_0000 <= a1 * (vcf.input1 as i128)
                                <= 0x1_0000_0000_0000) by (nonlinear_arith)
                                requires
                                    0 <= a1 <= 0x10000,
                                    -0x1_0000_0000 <= vcf.input1 as i128 <= 0x1_0000_0000,
                            ;
                            assert(-0x2_0000_0000_0000 <= b1 * (vcf.output0 as i128)
                                <= 0x2_0000_0000_0000) by (nonlinear_arith)
                                requires
                                    -0x20000 <= b1 <= 0x20000,
                                    -0x1_0000_0000 <= vcf.output0 as i128 <= 0x1_0000_0000,
                            ;
                            assert(-0x1_0000_0000_0000 <= b2 * (vcf.output1 as i128)
                                <= 0x1_0000_0000_0000) by (nonlinear_arith)
                                requires
                                    -0x10000 <= b2 <= 0x10000,
                                    -0x1_0000_0000 <= vcf.output1 as i128 <= 0x1_0000_0000,
                            ;
                        }
                        let sum: i128 = a1 * (x as i128) + 2 * a1 * (vcf.input0 as i128) + a1 * (
                        vcf.input1 as i128) - b1 * (vcf.output0 as i128) - b2 * (vcf.output1
                            as i128);
                        let y: i128 = floor_div_i128(sum, 0x10000);
                        let out: i64 = clamp_sample_exec(y);
                        vcf.input1 = vcf.input0;
                        vcf.input0 = x;
                        vcf.output1 = vcf.output0;
                        vcf.output0 = out;
                        Some(out)
                    }
                }
            }
            RawSource::Vca(b) => {
                let vca: &mut Vca = b;
                let s_opt = vca.source.next();
                let e_opt = vca.envelope.next();
                match (s_opt, e_opt) {
                    (Some(sv), Some(ev)) => {
                        if ev <= 0 {
                            Some(0i64)
                        } else {
                            proof {
                                assert(-0x1_0000_0000_0000_0000 <= (sv as i128) * (ev as i128)
                                    <= 0x1_0000_0000_0000_0000) by (nonlinear_arith)
                                    requires
                                        -0x1_0000_0000 <= sv as i128 <= 0x1_0000_0000,
                                        -0x1_0000_0000 <= ev as i128 <= 0x1_0000_0000,
                                ;
                            }
                            let prod: i128 = (sv as i128) * (ev as i128);
                            let scaled: i128 = floor_div_i128(prod, 0x10000);
                            Some(clamp_sample_exec(scaled))
                        }
                    }
                    _ => None,
                }
            }
            RawSource::Att(b) => {
                let att: &mut Attenuator = b;
                let s_opt = att.source.next();
                match s_opt {
                    None => None,
                    Some(sv) => {
                        proof {
                            assert(-0x2_0000_0000_0000 <= (sv as i128) * (att.attenuation
                                as i128) <= 0x2_0000_0000_0000) by (nonlinear_arith)
                                requires
                                    -0x1_0000_0000 <= sv as i128 <= 0x1_0000_0000,
                                    -0x10000 <= att.attenuation as i128 <= 0x20000,
                            ;
                        }
                        let prod: i128 = (sv as i128) * (att.attenuation as i128);
                        let scaled: i128 = floor_div_i128(prod, 0x10000);
                        Some(clamp_sample_exec(scaled))
                    }
                }
            }
        }
    }
}

} // verus!

verus! {

/// Resonance is clamped at construction to its documented range,
/// sqrt(2) (low) down to 0.1 (high), fixed-point.
pub open spec fn clamp_resonance(r: int) -> int {
    if r < 6554 {
        6554
    } else if r > 92682 {
        92682
    } else {
        r
    }
}

/// Attenuation is clamped at construction to [-1.0, 2.0], fixed-point.
pub open spec fn clamp_attenuation(a: int) -> int {
    if a < -0x10000 {
        -0x10000
    } else if a > 0x20000 {
        0x20000
    } else {
        a
    }
}

impl Vco {
    fn new_internal(oscillator: RawSource, base_frequency: u64, cv: Option<RawSource>) -> (v: Vco)
        requires
            oscillator.wf(),
            (match cv {
                Some(c) => c.wf(),
                None => true,
            }),
        ensures
            v.oscillator == oscillator.retuned(base_frequency as int),
            v.base_voltage == voltage_of_frequency(base_frequency as int),
            v.cv == cv,
            v.last_cv == 0,
            RawSource::Vco(Box::new(v)).wf(),
    {
        let mut osc = oscillator;
        osc.set_frequency(base_frequency);
        let base_voltage: i64 = volts_per_frequency(base_frequency);
        Vco { oscillator: osc, base_voltage, cv, last_cv: 0 }
    }

    /// A voltage-controlled oscillator driven by a control-voltage source.
    pub fn new(oscillator: RawSource, base_frequency: u64, cv: RawSource) -> (v: Vco)
        requires
            oscillator.wf(),
            cv.wf(),
        ensures
            v.oscillator == oscillator.retuned(base_frequency as int),
            v.base_voltage == voltage_of_frequency(base_frequency as int),
            v.cv == Some(cv),
            v.last_cv == 0,
            RawSource::Vco(Box::new(v)).wf(),
    {
        Vco::new_internal(oscillator, base_frequency, Some(cv))
    }

    /// A voltage-controlled oscillator with no control input: it simply
    /// holds its oscillator at the base frequency.
    pub fn from_oscillator(oscillator: RawSource, base_frequency: u64) -> (v: Vco)
        requires
            oscillator.wf(),
        ensures
            v.oscillator == oscillator.retuned(base_frequency as int),
            v.base_voltage == voltage_of_frequency(base_frequency as int),
            v.cv is None,
            v.last_cv == 0,
            RawSource::Vco(Box::new(v)).wf(),
    {
        Vco::new_internal(oscillator, base_frequency, None)
    }

    /// Erase the stage into a graph node.
    pub fn as_raw(self) -> (r: RawSource)
        ensures
            r == RawSource::Vco(Box::new(self)),
    {
        RawSource::Vco(Box::new(self))
    }
}

impl Vcf {
    /// A resonant low-pass filter over `source` with the given cutoff
    /// (millihertz) and resonance (fixed-point, clamped to its range).
    /// The cached coefficient is computed for a cutoff clamped to the band
    /// from 1 Hz to 20 kHz; a cutoff outside it filters as the nearer end.
    pub fn new(source: RawSource, frequency: u64, resonance: i64) -> (v: Vcf)
        requires
            source.wf(),
        ensures
            v.source == source,
            v.frequency as int == clamp_frequency(frequency as int),
            v.resonance == clamp_resonance(resonance as int),
            v.c == cutoff_c_q16(frequency as int),
            v.input0 == 0 && v.input1 == 0 && v.output0 == 0 && v.output1 == 0,
            RawSource::Vcf(Box::new(v)).wf(),
    {
        proof {
            lemma_cutoff_c_bounds(frequency as int);
        }
        let res: i64 = if resonance < 6554 {
            6554
        } else if resonance > 92682 {
            92682
        } else {
            resonance
        };
        Vcf {
            source,
            frequency: clamp_frequency_exec(frequency),
            resonance: res,
            input0: 0,
            input1: 0,
            output0: 0,
            output1: 0,
            c: cutoff_coefficient(frequency),
        }
    }

    /// Erase the stage into a graph node.
    pub fn as_raw(self) -> (r: RawSource)
        ensures
            r == RawSource::Vcf(Box::new(self)),
    {
        RawSource::Vcf(Box::new(self))
    }
}

impl Vca {
    /// An amplifier multiplying `source` by the samples of `envelope`.
    pub fn new(source: RawSource, envelope: RawSource) -> (v: Vca)
        requires
            source.wf(),
            envelope.wf(),
        ensures
            v.source == source,
            v.envelope == envelope,
            RawSource::Vca(Box::new(v)).wf(),
    {
        Vca { source, envelope }
    }

    /// Erase the stage into a graph node.
    pub fn as_raw(self) -> (r: RawSource)
        ensures
            r == RawSource::Vca(Box::new(self)),
    {
        RawSource::Vca(Box::new(self))
    }
}

impl Attenuator {
    /// Scale `source` by a fixed factor, clamped to [-1.0, 2.0].
    pub fn new(source: RawSource, attenuation: i64) -> (v: Attenuator)
        requires
            source.wf(),
        ensures
            v.source == source,
            v.attenuation == clamp_attenuation(attenuation as int),
            RawSource::Att(Box::new(v)).wf(),
    {
        let a: i64 = if attenuation < -0x10000 {
            -0x10000
        } else if attenuation > 0x20000 {
            0x20000
        } else {
            attenuation
        };
        Attenuator { source, attenuation: a }
    }

    /// Erase the stage into a graph node.
    pub fn as_raw(self) -> (r: RawSource)
        ensures
            r == RawSource::Att(Box::new(self)),
    {
        RawSource::Att(Box::new(self))
    }
}

impl SquareWave {
    /// Erase the stage into a graph node.
    pub fn as_raw(self) -> (r: RawSource)
        ensures
            r == RawSource::Square(self),
    {
        RawSource::Square(self)
    }
}

impl SawWave {
    /// Erase the stage into a graph node.
    pub fn as_raw(self) -> (r: RawSource)
        ensures
            r == RawSource::Saw(self),
    {
        RawSource::Saw(self)
    }
}

impl RampWave {
    /// Erase the stage into a graph node.
    pub fn as_raw(self) -> (r: RawSource)
        ensures
            r == RawSource::Ramp(self),
    {
        RawSource::Ramp(self)
    }
}

impl TriangleWave {
    /// Erase the stage into a graph node.
    pub fn as_raw(self) -> (r: RawSource)
        ensures
            r == RawSource::Triangle(self),
    {
        RawSource::Triangle(self)
    }
}

impl NoiseLFSR {
    /// Erase the stage into a graph node.
    pub fn as_raw(self) -> (r: RawSource)
        ensures
            r == RawSource::Noise(self),
    {
        RawSource::Noise(self)
    }
}

impl SuperSaw {
    /// Erase the stage into a graph node.
    pub fn as_raw(self) -> (r: RawSource)
        ensures
            r == RawSource::Super(self),
    {
        RawSource::Super(self)
    }
}

impl Envelope {
    /// Erase the stage into a graph node.
    pub fn as_raw(self) -> (r: RawSource)
        ensures
            r == RawSource::Env(self),
    {
        RawSource::Env(self)
    }
}

/// The one capability every generator stage offers: produce the next
/// sample, or nothing once exhausted.  The contract ties each pull to the
/// stage's own step and output model.
pub trait GenSource: Sized {
    /// The stage's well-formedness invariant.
    spec fn src_wf(&self) -> bool;

    /// The stage after one pull.
    spec fn src_stepped(&self) -> Self;

    /// The sample the stage emits on the next pull.
    spec fn src_out(&self) -> Option<int>;

    fn next(&mut self) -> (r: Option<i64>)
        requires
            old(self).src_wf(),
        ensures
            final(self).src_wf(),
            *final(self) == old(self).src_stepped(),
            opt_val(r) == old(self).src_out(),
    ;
}

impl GenSource for RawSource {
    open spec fn src_wf(&self) -> bool {
        self.wf()
    }

    open spec fn src_stepped(&self) -> RawSource {
        self.stepped()
    }

    open spec fn src_out(&self) -> Option<int> {
        self.out()
    }

    fn next(&mut self) -> (r: Option<i64>) {
        RawSource::next(self)
    }
}

impl GenSource for SquareWave {
    open spec fn src_wf(&self) -> bool {
        self.wf()
    }

    open spec fn src_stepped(&self) -> SquareWave {
        self.stepped()
    }

    open spec fn src_out(&self) -> Option<int> {
        Some(self.sample_out())
    }

    fn next(&mut self) -> (r: Option<i64>) {
        SquareWave::next(self)
    }
}

impl GenSource for SawWave {
    open spec fn src_wf(&self) -> bool {
        self.wf()
    }

    open spec fn src_stepped(&self) -> SawWave {
        self.stepped()
    }

    open spec fn src_out(&self) -> Option<int> {
        Some(self.sample_out())
    }

    fn next(&mut self) -> (r: Option<i64>) {
        SawWave::next(self)
    }
}

impl GenSource for RampWave {
    open spec fn src_wf(&self) -> bool {
        self.wf()
    }

    open spec fn src_stepped(&self) -> RampWave {
        self.stepped()
    }

    open spec fn src_out(&self) -> Option<int> {
        Some(self.sample_out())
    }

    fn next(&mut self) -> (r: Option<i64>) {
        RampWave::next(self)
    }
}

impl GenSource for TriangleWave {
    open spec fn src_wf(&self) -> bool {
        self.wf()
    }

    open spec fn src_stepped(&self) -> TriangleWave {
        self.stepped()
    }

    open spec fn src_out(&self) -> Option<int> {
        Some(self.sample_out())
    }

    fn next(&mut self) -> (r: Option<i64>) {
        TriangleWave::next(self)
    }
}

impl GenSource for NoiseLFSR {
    open spec fn src_wf(&self) -> bool {
        self.wf()
    }

    open spec fn src_stepped(&self) -> NoiseLFSR {
        self.stepped()
    }

    open spec fn src_out(&self) -> Option<int> {
        Some(self.sample_out())
    }

    fn next(&mut self) -> (r: Option<i64>) {
        NoiseLFSR::next(self)
    }
}

impl GenSource for SuperSaw {
    open spec fn src_wf(&self) -> bool {
        self.wf()
    }

    open spec fn src_stepped(&self) -> SuperSaw {
        self.stepped()
    }

    open spec fn src_out(&self) -> Option<int> {
        Some(self.sample_out())
    }

    fn next(&mut self) -> (r: Option<i64>) {
        SuperSaw::next(self)
    }
}

impl GenSource for Envelope {
    open spec fn src_wf(&self) -> bool {
        self.wf()
    }

    open spec fn src_stepped(&self) -> Envelope {
        self.stepped()
    }

    open spec fn src_out(&self) -> Option<int> {
        self.sample_out()
    }

    fn next(&mut self) -> (r: Option<i64>) {
        Envelope::next(self)
    }
}

} // verus!

verus! {

/// The envelope `e` as it stands after being pulled `t` times from fresh:
/// its clock advances one sample per pull and parks at the total length.
pub open spec fn envelope_at(e: Envelope, t: int) -> Envelope {
    Envelope {
        time: (if t > e.total() {
            e.total()
        } else {
            t
        }) as u64,
        ..e
    }
}

/// The envelope law.  A fresh envelope yields exactly `attack` nondecreasing
/// samples climbing from zero, then exactly `hold` samples flat at the peak
/// amplitude, then exactly `release` nonincreasing samples falling towards
/// zero, and after those nothing, forever.  Pulling advances the clock by
/// one sample at a time.
pub proof fn lemma_envelope_profile(e: Envelope, t: int)
    requires
        e.wf(),
        e.time == 0,
        0 <= t,
    ensures
        envelope_at(e, t).wf(),
        envelope_at(e, t).stepped() == envelope_at(e, t + 1),
        t < e.attack ==> envelope_at(e, t).sample_out() == Some(
            e.amplitude * t / e.attack as int,
        ),
        t == 0 && e.attack > 0 ==> envelope_at(e, t).sample_out() == Some(0int),
        t + 1 < e.attack ==> envelope_at(e, t).sample_out().unwrap() <= envelope_at(
            e,
            t + 1,
        ).sample_out().unwrap(),
        e.attack <= t < e.attack + e.hold ==> envelope_at(e, t).sample_out() == Some(
            e.amplitude as int,
        ),
        e.attack + e.hold <= t < e.total() ==> envelope_at(e, t).sample_out() == Some(
            e.amplitude * (e.total() - t) / e.release as int,
        ),
        e.attack + e.hold <= t && t + 1 < e.total() ==> envelope_at(
            e,
            t + 1,
        ).sample_out().unwrap() <= envelope_at(e, t).sample_out().unwrap(),
        t == e.total() - 1 && e.attack + e.hold <= t ==> envelope_at(e, t).sample_out() == Some(
            e.amplitude as int / e.release as int,
        ),
        t >= e.total() ==> envelope_at(e, t).sample_out() is None && envelope_at(e, t).exhausted(),
{
    let et = envelope_at(e, t);
    if t < e.attack {
        if t + 1 < e.attack {
            assert(e.amplitude * t <= e.amplitude * (t + 1)) by (nonlinear_arith)
                requires
                    e.amplitude >= 0,
                    t >= 0,
            ;
            vstd::arithmetic::div_mod::lemma_div_is_ordered(
                e.amplitude * t,
                e.amplitude * (t + 1),
                e.attack as int,
            );
            assert(e.amplitude * (t + 1) >= 0) by (nonlinear_arith)
                requires
                    e.amplitude >= 0,
                    t + 1 >= 0,
            ;
            vstd::arithmetic::div_mod::lemma_div_pos_is_pos(e.amplitude * t, e.attack as int);
        }
        assert(e.amplitude * 0 == 0) by (nonlinear_arith);
        vstd::arithmetic::div_mod::lemma_div_pos_is_pos(e.amplitude * t, e.attack as int);
    } else if e.attack + e.hold <= t < e.total() {
        if t + 1 < e.total() {
            assert(e.amplitude * (e.total() - t - 1) <= e.amplitude * (e.total() - t))
                by (nonlinear_arith)
                requires
                    e.amplitude >= 0,
                    e.total() - t - 1 >= 0,
            ;
            vstd::arithmetic::div_mod::lemma_div_is_ordered(
                e.amplitude * (e.total() - t - 1),
                e.amplitude * (e.total() - t),
                e.release as int,
            );
            vstd::arithmetic::div_mod::lemma_div_pos_is_pos(
                e.amplitude * (e.total() - t - 1),
                e.release as int,
            );
        }
        if t == e.total() - 1 {
            assert(e.amplitude * 1 == e.amplitude) by (nonlinear_arith);
        }
    }
}

} // verus!

verus! {

/// The phase accumulator after `n` consecutive pulls at frequency `f`.
pub open spec fn phase_iterated(p: int, f: int, n: nat) -> int
    decreases n,
{
    if n == 0 {
        p
    } else {
        next_phase(phase_iterated(p, f, (n - 1) as nat), f)
    }
}

/// Iterated pulls keep the accumulator within one cycle, congruent to the
/// start plus `n` phase steps.
proof fn lemma_phase_iterated_congruence(p: int, f: int, n: nat)
    requires
        0 <= p < 0x1_0000_0000,
        0 <= f <= 44_100_000,
    ensures
        0 <= phase_iterated(p, f, n) < 0x1_0000_0000,
        (phase_iterated(p, f, n) - (p + n * phase_step(f))) % 0x1_0000_0000 == 0,
    decreases n,
{
    let m = 0x1_0000_0000int;
    let s = phase_step(f);
    lemma_phase_step_bounds(f);
    if n == 0 {
        assert(n * s == 0) by (nonlinear_arith)
            requires
                n == 0,
        ;
        vstd::arithmetic::div_mod::lemma_mod_equivalence(p, p, m);
        vstd::arithmetic::div_mod::lemma_small_mod(0, m as nat);
    } else {
        lemma_phase_iterated_congruence(p, f, (n - 1) as nat);
        let q = phase_iterated(p, f, (n - 1) as nat);
        lemma_next_phase_bounds(q, f);
        let a = phase_iterated(p, f, n);
        assert(n * s == (n - 1) * s + s) by (nonlinear_arith);
        // a is q + s, possibly less one full cycle
        if phase_wraps(q, f) {
            assert(a == q + s - m);
            vstd::arithmetic::div_mod::lemma_mod_multiples_vanish(
                -1,
                (q + s) - (p + n * s),
                m,
            );
            assert((a - (p + n * s)) == m * (-1) + ((q + s) - (p + n * s)));
        }
        assert(((q + s) - (p + n * s)) == (q - (p + (n - 1) * s)));
        vstd::arithmetic::div_mod::lemma_mod_equivalence(q, p + (n - 1) * s, m);
        vstd::arithmetic::div_mod::lemma_mod_equivalence(a, p + n * s, m);
        vstd::arithmetic::div_mod::lemma_mod_equivalence(q + s, p + n * s, m);
    }
}

/// One period's worth of phase steps — one step per sample over
/// `round(sample rate / f)` samples — comes to almost exactly one full
/// cycle: short by at most one unit per sample taken, over by at most
/// half a phase step.
proof fn lemma_period_steps_near_cycle(f: int)
    requires
        1 <= f <= 22_050_000,
    ensures
        ({
            let n = (44_100_000 + f / 2) / f;
            let s = phase_step(f);
            1 <= n <= 44_100_000 && 0x1_0000_0000 - n - s - 1 <= n * s && n * s <= 0x1_0000_0000
                + f * 0x8000_0000 / 44_100_000
        }),
{
    let d = 44_100_000int;
    let m = 0x1_0000_0000int;
    let h = f / 2;
    let s = phase_step(f);
    let n = (d + h) / f;
    lemma_phase_step_bounds(f);
    vstd::arithmetic::div_mod::lemma_fundamental_div_mod(f * m, d);
    let r1 = (f * m) % d;
    vstd::arithmetic::div_mod::lemma_fundamental_div_mod(d + h, f);
    let r2 = (d + h) % f;
    vstd::arithmetic::div_mod::lemma_fundamental_div_mod(f, 2);
    let r3 = f % 2;
    assert(0 <= r1 < d);
    assert(0 <= r2 < f);
    assert(0 <= r3 < 2);
    assert(f == 2 * h + r3);
    // bounds on n
    assert(n >= 2) by {
        vstd::arithmetic::div_mod::lemma_div_is_ordered(2 * f, d + h, f);
        vstd::arithmetic::div_mod::lemma_div_multiples_vanish(2, f);
    }
    assert(n <= 44_100_000) by {
        assert((n - 1) * f <= d - 1) by (nonlinear_arith)
            requires
                d + h == f * n + r2,
                0 <= r2 < f,
                h < f,
                f >= 1,
        ;
        vstd::arithmetic::div_mod::lemma_div_is_ordered((n - 1) * f, d - 1, f);
        vstd::arithmetic::div_mod::lemma_div_multiples_vanish(n - 1, f);
        assert(f * (n - 1) == (n - 1) * f) by (nonlinear_arith);
        vstd::arithmetic::div_mod::lemma_div_is_ordered_by_denominator(d - 1, 1, f);
    }
    // the central identity: (n*s - m) * d == (h - r2) * m - n * r1
    assert((n * s - m) * d == (h - r2) * m - n * r1) by (nonlinear_arith)
        requires
            f * m == d * s + r1,
            d + h == f * n + r2,
    ;
    let e = n * s - m;
    // upper bound: e * d <= h * m <= f * 2^31
    assert(e * d <= h * m) by (nonlinear_arith)
        requires
            e * d == (h - r2) * m - n * r1,
            r2 >= 0,
            n >= 0,
            r1 >= 0,
            m > 0,
    ;
    assert(h * m <= f * 0x8000_0000) by (nonlinear_arith)
        requires
            f == 2 * h + r3,
            r3 >= 0,
            m == 2 * 0x8000_0000,
            h >= 0,
    ;
    assert(e <= f * 0x8000_0000 / d) by {
        vstd::arithmetic::div_mod::lemma_div_is_ordered(e * d, f * 0x8000_0000, d);
        vstd::arithmetic::div_mod::lemma_div_multiples_vanish(e, d);
        assert(d * e == e * d) by (nonlinear_arith);
    }
    // lower bound: e * d >= -h * m - n * d >= -(s + 1) * d - n * d
    assert(e * d >= (-h - 1) * m - n * d) by (nonlinear_arith)
        requires
            e * d == (h - r2) * m - n * r1,
            h - r2 >= h - f + 1,
            f == 2 * h + r3,
            r3 <= 1,
            r1 < d,
            n >= 0,
            m > 0,
            d > 0,
    ;
    // h * m <= f * 2^31 gives (h*m)/d <= s, so (h+1) * m <= (s+1) * d + m ... bound directly:
    assert(h * m <= f * m) by (nonlinear_arith)
        requires
            f == 2 * h + r3,
            r3 >= 0,
            h >= 0,
            m > 0,
    ;
    assert((s + 1) * d > f * m) by (nonlinear_arith)
        requires
            f * m == d * s + r1,
            r1 < d,
            d > 0,
    ;
    assert(h + 1 <= f) by (nonlinear_arith)
        requires
            f == 2 * h + r3,
            0 <= r3 < 2,
            f >= 1,
    ;
    assert((h + 1) * m <= f * m) by (nonlinear_arith)
        requires
            h + 1 <= f,
            m > 0,
    ;
    assert(e >= -n - s - 1) by (nonlinear_arith)
        requires
            e * d >= (-h - 1) * m - n * d,
            (h + 1) * m <= f * m,
            (s + 1) * d > f * m,
            d > 0,
    ;
}

/// Periodicity law, for every representable frequency up to Nyquist.
/// Retune an oscillator to a frequency `f` and pull one period's worth of
/// samples —
/// `round(sample rate / f)` of them — and the phase accumulator returns to
/// approximately where it started: the drift is at most half a phase step
/// forward, or one accumulator unit per sample taken backward, out of the
/// 2^32 units of a full cycle.
pub proof fn lemma_oscillator_periodicity(p: int, f: int)
    requires
        0 <= p < 0x1_0000_0000,
        1 <= f <= 22_050_000,
    ensures
        ({
            let n = (44_100_000 + f / 2) / f;
            let drift = (phase_iterated(p, f, n as nat) - p) % 0x1_0000_0000;
            drift <= f * 0x8000_0000 / 44_100_000 || drift >= 0x1_0000_0000 - (phase_step(f) + n
                + 1)
        }),
{
    let d = 44_100_000int;
    let m = 0x1_0000_0000int;
    let s = phase_step(f);
    let n = (d + f / 2) / f;
    lemma_phase_step_bounds(f);
    lemma_period_steps_near_cycle(f);
    lemma_phase_iterated_congruence(p, f, n as nat);
    let a = phase_iterated(p, f, n as nat);
    let e = n * s - m;
    // (a - p) and e are congruent modulo a full cycle
    assert(((a - p) - e) % m == 0) by {
        assert((a - (p + n * s)) % m == 0);
        assert((a - p) - e == (a - (p + n * s)) + m);
        vstd::arithmetic::div_mod::lemma_mod_multiples_vanish(1, a - (p + n * s), m);
    }
    vstd::arithmetic::div_mod::lemma_mod_equivalence(a - p, e, m);
    let drift = (a - p) % m;
    assert(f * 0x8000_0000 / d < m) by {
        assert(f * 0x8000_0000 <= d * 0x4000_0000) by (nonlinear_arith)
            requires
                f <= 22_050_000,
                d == 2 * 22_050_000,
        ;
        vstd::arithmetic::div_mod::lemma_div_is_ordered(f * 0x8000_0000, d * 0x4000_0000, d);
        vstd::arithmetic::div_mod::lemma_div_multiples_vanish(0x4000_0000, d);
    }
    if e >= 0 {
        vstd::arithmetic::div_mod::lemma_small_mod(e as nat, m as nat);
        assert(drift == e);
    } else {
        assert((m + e) % m == e % m) by {
            vstd::arithmetic::div_mod::lemma_mod_multiples_vanish(1, e, m);
        }
        vstd::arithmetic::div_mod::lemma_small_mod((m + e) as nat, m as nat);
        assert(drift == m + e);
    }
}

} // verus!

verus! {

/// The graph after `n` consecutive pulls.
pub open spec fn stepped_n(g: RawSource, n: nat) -> RawSource
    decreases n,
{
    if n == 0 {
        g
    } else {
        stepped_n(g, (n - 1) as nat).stepped()
    }
}

/// Exhaustion is permanent under any number of further pulls: an
/// exhausted graph emits nothing on every later pull, forever.
pub proof fn lemma_exhaustion_permanent_forever(g: RawSource, n: nat)
    requires
        g.wf(),
        g.exhausted(),
    ensures
        stepped_n(g, n).wf(),
        stepped_n(g, n).exhausted(),
        stepped_n(g, n).out() is None,
    decreases n,
{
    if n == 0 {
        lemma_step(g);
    } else {
        lemma_exhaustion_permanent_forever(g, (n - 1) as nat);
        lemma_step(stepped_n(g, (n - 1) as nat));
        lemma_step(stepped_n(g, n));
    }
}

} // verus!

verus! {

/// The retune capability oscillators add on top of producing samples: a
/// frequency change without reconstruction.  The new frequency takes
/// effect on the next pull; accumulated phase and register state are kept.
pub trait Oscillator: GenSource {
    /// The stage as it stands after retuning to `f` millihertz.
    spec fn retuned_spec(&self, f: int) -> Self;

    fn set_frequency(&mut self, frequency: u64)
        requires
            old(self).src_wf(),
        ensures
            final(self).src_wf(),
            *final(self) == old(self).retuned_spec(frequency as int),
    ;
}

impl Oscillator for SquareWave {
    open spec fn retuned_spec(&self, f: int) -> SquareWave {
        SquareWave { frequency: clamp_frequency(f) as u64, period: self.period }
    }

    fn set_frequency(&mut self, frequency: u64) {
        SquareWave::set_frequency(self, frequency)
    }
}

impl Oscillator for SawWave {
    open spec fn retuned_spec(&self, f: int) -> SawWave {
        SawWave { frequency: clamp_frequency(f) as u64, period: self.period }
    }

    fn set_frequency(&mut self, frequency: u64) {
        SawWave::set_frequency(self, frequency)
    }
}

impl Oscillator for RampWave {
    open spec fn retuned_spec(&self, f: int) -> RampWave {
        RampWave { frequency: clamp_frequency(f) as u64, period: self.period }
    }

    fn set_frequency(&mut self, frequency: u64) {
        RampWave::set_frequency(self, frequency)
    }
}

impl Oscillator for TriangleWave {
    open spec fn retuned_spec(&self, f: int) -> TriangleWave {
        TriangleWave { frequency: clamp_frequency(f) as u64, period: self.period }
    }

    fn set_frequency(&mut self, frequency: u64) {
        TriangleWave::set_frequency(self, frequency)
    }
}

impl Oscillator for NoiseLFSR {
    open spec fn retuned_spec(&self, f: int) -> NoiseLFSR {
        NoiseLFSR { frequency: clamp_frequency(f) as u64, ..*self }
    }

    fn set_frequency(&mut self, frequency: u64) {
        NoiseLFSR::set_frequency(self, frequency)
    }
}

impl Oscillator for SuperSaw {
    open spec fn retuned_spec(&self, f: int) -> SuperSaw {
        SuperSaw::retuned(*self, f)
    }

    fn set_frequency(&mut self, frequency: u64) {
        SuperSaw::set_frequency(self, frequency)
    }
}

} // verus!
