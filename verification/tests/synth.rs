use modsynth::generator::{
    Attenuator, Envelope, GenSource, NoiseLFSR, RawSource, SawWave, SquareWave, SuperSaw,
    TriangleWave, Vca, Vco,
};
use modsynth::volts::{frequency_per_volt, semitone_frequency, volts_per_frequency};

#[test]
fn zero_volts_is_c2() {
    assert_eq!(frequency_per_volt(0), 65410);
}

#[test]
fn one_volt_is_one_octave() {
    // 0.1 of full scale is one volt, one octave above C2.  6554 fixed-point
    // steps overshoot one volt by 0.4 of a step, and the frequency follows.
    let f = frequency_per_volt(6554);
    assert_eq!(f, 130825);
    assert!((f as i64 - 130820).abs() <= 10);
}

#[test]
fn ten_volts_is_ten_octaves() {
    assert_eq!(frequency_per_volt(65536), 65410 * 1024);
}

#[test]
fn volts_clamp_at_full_scale() {
    assert_eq!(frequency_per_volt(i64::MAX), 65410 * 1024);
    assert_eq!(frequency_per_volt(1_000_000), 65410 * 1024);
    assert_eq!(frequency_per_volt(-1_000_000), 63);
}

#[test]
fn voltage_of_c2_is_zero() {
    assert_eq!(volts_per_frequency(65410), 0);
}

#[test]
fn voltage_of_double_c2_is_one_volt() {
    // Semitone 12 quantizes to 6554 fixed-point steps.
    assert_eq!(volts_per_frequency(130820), 6554);
}

#[test]
fn voltage_frequency_round_trip_is_exact_at_scale() {
    // Wherever a millihertz resolves one voltage step — everywhere above
    // one octave below C2 — the round trip returns the voltage exactly.
    let mut v: i64 = -6553;
    while v <= 65536 {
        let back = volts_per_frequency(frequency_per_volt(v));
        assert_eq!(back, v, "voltage {} came back as {}", v, back);
        v += 487;
    }
    assert_eq!(volts_per_frequency(frequency_per_volt(65536)), 65536);
}

#[test]
fn voltage_frequency_round_trip_below_scale_is_resolution_bound() {
    // Deeper down the band the integer millihertz grid coarsens the round
    // trip: one step down to six hertz, never more than 182 steps, and
    // never overshooting.
    let mut v: i64 = -65536;
    while v < -6553 {
        let back = volts_per_frequency(frequency_per_volt(v));
        assert!(back <= v && v - back <= 182, "voltage {} came back as {}", v, back);
        if v >= -19660 {
            assert!(v - back <= 1);
        }
        v += 499;
    }
}

#[test]
fn forward_conversion_follows_the_exponential() {
    // Against C2 * 2^(10 v): within a twentieth of one percent over the
    // audible band.
    let mut v: i64 = -19660;
    while v <= 65536 {
        let f = frequency_per_volt(v) as f64;
        let formula = 65410.0f64 * 2.0f64.powf(10.0 * v as f64 / 65536.0);
        assert!(
            (f - formula).abs() <= formula * 0.0005,
            "at voltage {}: {} vs {}",
            v,
            f,
            formula
        );
        v += 331;
    }
}

#[test]
fn inverse_conversion_follows_the_logarithm() {
    // Against log2(f / C2) / 10 in fixed point: within a few voltage steps
    // across the audible band.
    for f in [20_000u64, 65_410, 100_000, 441_000, 1_000_000, 8_000_000, 20_000_000] {
        let v = volts_per_frequency(f) as f64;
        let formula = 65536.0f64 * (f as f64 / 65410.0).log2() / 10.0;
        assert!((v - formula).abs() <= 4.0, "at {} mHz: {} vs {}", f, v, formula);
    }
}

#[test]
fn frequency_round_trip_stays_within_a_tenth_of_a_percent() {
    for f in [10_000u64, 65_410, 100_000, 441_000, 5_000_000, 20_000_000, 66_979_840] {
        let back = frequency_per_volt(volts_per_frequency(f));
        let err = (back as i64 - f as i64).abs() as f64;
        assert!(err <= f as f64 * 0.001, "{} mHz came back as {}", f, back);
    }
    assert_eq!(frequency_per_volt(volts_per_frequency(100_000)), 99_999);
}

#[test]
fn inverse_conversion_increases_with_frequency() {
    assert_eq!(volts_per_frequency(100_000), 4010);
    assert_eq!(volts_per_frequency(101_000), 4104);
    let mut prev: i64 = i64::MIN;
    for f in [100u64, 1_000, 10_000, 65_410, 130_820, 441_000, 20_000_000, 66_979_840] {
        let v = volts_per_frequency(f);
        assert!(v > prev, "the inverse must grow with frequency");
        prev = v;
    }
}

#[test]
fn semitone_frequencies_match_equal_temperament() {
    assert_eq!(semitone_frequency(0), 65410);
    assert_eq!(semitone_frequency(12), 130820);
    assert_eq!(semitone_frequency(-12), 32705);
    // A above middle C: C2 + 33 semitones, about 440 Hz.
    let a4 = semitone_frequency(33);
    assert!((a4 as i64 - 440_000).abs() < 300, "a4 was {}", a4);
}

#[test]
fn square_wave_alternates_half_scale() {
    // 4410 Hz at a 44100 Hz rate: five samples high, five samples low.
    let mut w = SquareWave::new(4_410_000);
    let expect = [
        32768i64, 32768, 32768, 32768, 32768, -32768, -32768, -32768, -32768, -32768, 32768,
    ];
    for (i, e) in expect.iter().enumerate() {
        assert_eq!(w.next(), Some(*e), "sample {}", i);
    }
}

#[test]
fn oscillators_never_exhaust() {
    let mut saw = SawWave::new(441_000);
    let mut ramp = modsynth::generator::RampWave::new(441_000);
    let mut tri = TriangleWave::new(441_000);
    for _ in 0..1000 {
        assert!(saw.next().is_some());
        assert!(ramp.next().is_some());
        assert!(tri.next().is_some());
    }
}

#[test]
fn saw_descends_and_ramp_ascends() {
    let mut saw = SawWave::new(441_000);
    let mut ramp = modsynth::generator::RampWave::new(441_000);
    let s0 = saw.next().unwrap();
    let s1 = saw.next().unwrap();
    assert!(s1 < s0);
    let r0 = ramp.next().unwrap();
    let r1 = ramp.next().unwrap();
    assert!(r1 > r0);
    assert_eq!(s0 + r0, 0); // mirror images of each other
}

#[test]
fn oscillator_returns_to_phase_after_one_period() {
    // 441 Hz: one period is 100 samples; the accumulator comes back to
    // within a hair of its start (here 96 of 2^32 units short).
    let mut w = SawWave::new(441_000);
    for _ in 0..100 {
        w.next();
    }
    assert_eq!(w.period, 4294967200);
    assert!((1u64 << 32) - w.period <= 100);
}

#[test]
fn retuned_oscillator_keeps_its_phase() {
    let mut w = SawWave::new(441_000);
    w.next();
    let p = w.period;
    w.set_frequency(882_000);
    assert_eq!(w.period, p);
    assert_eq!(w.frequency, 882_000);
}

#[test]
fn frequencies_clamp_to_sample_rate() {
    let w = SquareWave::new(99_000_000);
    assert_eq!(w.frequency, 44_100_000);
}

#[test]
fn noise_register_clocks_once_per_period() {
    // Clocked at 22050 Hz: the register shifts every second sample.
    let mut n = NoiseLFSR::new(22_050_000);
    let expect = [32768i64, 32768, 32768, -32768, -32768, -32768, -32768, -32768];
    for (i, e) in expect.iter().enumerate() {
        assert_eq!(n.next(), Some(*e), "sample {}", i);
    }
}

#[test]
fn noise_is_deterministic_across_instances() {
    let mut a = NoiseLFSR::new(20_000_000);
    let mut b = NoiseLFSR::new(20_000_000);
    for _ in 0..64 {
        assert_eq!(a.next(), b.next());
    }
}

#[test]
fn supersaw_detunes_symmetrically_in_whole_hertz() {
    let s = SuperSaw::new(440_000);
    assert_eq!(s.sub0.frequency, 436_000);
    assert_eq!(s.sub3.frequency, 439_000);
    assert_eq!(s.sub4.frequency, 440_000);
    assert_eq!(s.sub7.frequency, 443_000);
}

#[test]
fn supersaw_sums_unnormalized() {
    let mut s = SuperSaw::new(440_000);
    let v = s.next().unwrap();
    // Eight saws near the top of their ramps sum to roughly eight halves.
    assert!(v > 4 * 32768 && v <= 8 * 32768, "sum was {}", v);
}

#[test]
fn envelope_counts_attack_hold_release_exactly() {
    // 10 ms, 5 ms, 20 ms at 44100 Hz: 441, 221 and 882 samples.
    let mut e = Envelope::new(65536, 10, 5, 20);
    assert_eq!(e.attack, 441);
    assert_eq!(e.hold, 221);
    assert_eq!(e.release, 882);
    let mut ascending = 0;
    let mut flat = 0;
    let mut descending = 0;
    let mut last: i64 = -1;
    for _ in 0..441 {
        let v = e.next().unwrap();
        assert!(v >= last, "attack must not fall");
        assert!(v < 65536);
        last = v;
        ascending += 1;
    }
    for _ in 0..221 {
        assert_eq!(e.next(), Some(65536));
        flat += 1;
    }
    let mut prev: i64 = 65536;
    for _ in 0..882 {
        let v = e.next().unwrap();
        assert!(v <= prev, "release must not rise");
        prev = v;
        descending += 1;
    }
    // The final release sample has fallen to (nearly) zero.
    assert_eq!(prev, 74);
    assert_eq!((ascending, flat, descending), (441, 221, 882));
    for _ in 0..50 {
        assert_eq!(e.next(), None, "an exhausted envelope stays exhausted");
    }
}

#[test]
fn envelope_starts_at_zero() {
    let mut e = Envelope::new(65536, 100, 0, 0);
    assert_eq!(e.next(), Some(0));
}

#[test]
fn envelope_durations_are_stored_as_given() {
    // An hour-long attack is kept, not capped: round(3_600_000 ms * 44.1).
    let e = Envelope::new(65536, 3_600_000, 0, 4_000_000);
    assert_eq!(e.attack, 158_760_000);
    assert_eq!(e.release, 176_400_000);
    assert_eq!(e.hold, 0);
}

#[test]
fn envelope_amplitude_clamps() {
    let hi = Envelope::new(999_999, 1, 1, 1);
    assert_eq!(hi.amplitude, 65536);
    let lo = Envelope::new(-5, 1, 1, 1);
    assert_eq!(lo.amplitude, 0);
}

#[test]
fn vca_scales_by_the_envelope() {
    // A half-amplitude envelope with no attack: output is half the carrier.
    let carrier = SquareWave::new(4_410_000).as_raw();
    let env = Envelope::new(32768, 0, 5, 0).as_raw();
    let mut vca = Vca::new(carrier, env).as_raw();
    assert_eq!(vca.next(), Some(16384));
}

#[test]
fn vca_exhausts_with_its_envelope() {
    let carrier = SquareWave::new(441_000).as_raw();
    let env = Envelope::new(65536, 0, 1, 0).as_raw(); // 44 samples of hold
    let mut vca = Vca::new(carrier, env).as_raw();
    let mut produced = 0;
    while let Some(_) = vca.next() {
        produced += 1;
        assert!(produced < 1000);
    }
    assert_eq!(produced, 44);
    for _ in 0..10 {
        assert_eq!(vca.next(), None);
    }
}

#[test]
fn vca_forces_non_positive_gain_to_silence() {
    // An exhausted-attack envelope emits zero first: the output is zero,
    // not a negative product.
    let carrier = SquareWave::new(441_000).as_raw();
    let env = Envelope::new(65536, 100, 0, 0).as_raw();
    let mut vca = Vca::new(carrier, env).as_raw();
    assert_eq!(vca.next(), Some(0));
}

#[test]
fn attenuator_scales_and_clamps_its_gain() {
    let a = Attenuator::new(SquareWave::new(441_000).as_raw(), 999_999);
    assert_eq!(a.attenuation, 0x20000);
    let mut raw = a.as_raw();
    // Double gain on a half-scale square: full scale out.
    assert_eq!(raw.next(), Some(65536));
    let b = Attenuator::new(SquareWave::new(441_000).as_raw(), -999_999);
    assert_eq!(b.attenuation, -65536);
}

#[test]
fn vco_retunes_on_a_changed_control_voltage() {
    // Base 130820 mHz sits one volt above C2; a steady control voltage of
    // another volt retunes the oscillator two octaves above C2.
    let osc = SquareWave::new(1000).as_raw();
    let cv = Envelope::new(6554, 0, 100, 0).as_raw();
    let vco = Vco::new(osc, 130_820, cv);
    assert_eq!(vco.base_voltage, 6554);
    let mut raw = vco.as_raw();
    raw.next();
    if let RawSource::Vco(b) = &raw {
        assert_eq!(b.last_cv, 6554);
        if let RawSource::Square(w) = &b.oscillator {
            // two volts above C2: two octaves up, interpolated
            assert_eq!(w.frequency, 261_662);
            assert!((w.frequency as i64 - 261_640).abs() < 300);
        } else {
            panic!("the oscillator changed shape");
        }
    } else {
        panic!("the node changed shape");
    }
}

#[test]
fn vco_does_not_retune_on_a_steady_control_voltage() {
    let osc = SquareWave::new(1000).as_raw();
    let cv = Envelope::new(0, 0, 100, 0).as_raw(); // steady zero volts
    let vco = Vco::new(osc, 130_820, cv);
    let mut raw = vco.as_raw();
    raw.next();
    raw.next();
    if let RawSource::Vco(b) = &raw {
        // Zero equals the initial remembered voltage: never retuned.
        if let RawSource::Square(w) = &b.oscillator {
            assert_eq!(w.frequency, 130_820);
        } else {
            panic!("the oscillator changed shape");
        }
    } else {
        panic!("the node changed shape");
    }
}

#[test]
fn filter_passes_a_signal_and_exhausts_with_upstream() {
    let carrier = SquareWave::new(441_000).as_raw();
    let env = Envelope::new(65536, 0, 2, 0).as_raw();
    let vca = Vca::new(carrier, env).as_raw();
    let mut vcf = modsynth::generator::Vcf::new(vca, 2_000_000, 65536).as_raw();
    let mut produced = 0;
    let mut any_nonzero = false;
    while let Some(v) = vcf.next() {
        produced += 1;
        if v != 0 {
            any_nonzero = true;
        }
        assert!(produced < 1000);
    }
    assert_eq!(produced, 88); // 2 ms of samples from the envelope
    assert!(any_nonzero, "the filter must pass signal through");
    assert_eq!(vcf.next(), None);
}

#[test]
fn filter_resonance_clamps_to_its_range() {
    let v = modsynth::generator::Vcf::new(SquareWave::new(441_000).as_raw(), 2_000_000, 0);
    assert_eq!(v.resonance, 6554);
    let w = modsynth::generator::Vcf::new(SquareWave::new(441_000).as_raw(), 2_000_000, 999_999);
    assert_eq!(w.resonance, 92682);
}

#[test]
fn generic_pull_matches_direct_pull() {
    fn pull<T: GenSource>(s: &mut T) -> Option<i64> {
        s.next()
    }
    let mut a = SquareWave::new(4_410_000);
    let mut b = SquareWave::new(4_410_000);
    for _ in 0..20 {
        assert_eq!(pull(&mut a), b.next());
    }
}

#[test]
fn triangle_rises_then_falls() {
    // 4410 Hz: ten samples per cycle, rising to half scale and back.
    let mut t = TriangleWave::new(4_410_000);
    let mut samples: Vec<i64> = Vec::new();
    for _ in 0..10 {
        samples.push(t.next().unwrap());
    }
    for k in 0..4 {
        assert!(samples[k] < samples[k + 1], "rising half");
    }
    for k in 5..9 {
        assert!(samples[k] > samples[k + 1], "falling half");
    }
    assert!(samples.iter().all(|v| -32768 <= *v && *v <= 32768));
}

#[test]
fn first_saw_sample_sits_just_under_half_scale() {
    // One step into a 441 Hz cycle: 32768 - step/65536.
    let mut w = SawWave::new(441_000);
    assert_eq!(w.next(), Some(32768 - 42949672 / 65536));
}

#[test]
fn voltage_is_not_reclamped_below_full_scale() {
    // One millihertz sits about fifteen octaves below C2: the voltage runs
    // well past -1.0 instead of clamping to it.
    assert_eq!(volts_per_frequency(1), -98304);
}

#[test]
fn voltage_is_not_reclamped_above_full_scale() {
    // One megahertz is almost four octaves over the top of the ten-octave
    // band: about 1.39 of full scale, as the logarithm gives.
    assert_eq!(volts_per_frequency(1_000_000_000), 91093);
    assert!(volts_per_frequency(1_000_000_000) > 65536);
    // Even the largest representable frequency maps onto the table.
    assert_eq!(volts_per_frequency(u64::MAX), 314590);
}

#[test]
fn retuning_through_the_capability_trait_matches_direct_retuning() {
    fn retune<T: modsynth::generator::Oscillator>(o: &mut T, f: u64) {
        o.set_frequency(f);
    }
    let mut a = TriangleWave::new(441_000);
    let mut b = TriangleWave::new(441_000);
    retune(&mut a, 882_000);
    b.set_frequency(882_000);
    for _ in 0..16 {
        assert_eq!(a.next(), b.next());
    }
}

#[test]
fn vco_swept_by_a_low_frequency_oscillator_keeps_retuning() {
    // A ramp carrier whose pitch is swept by a slow saw: the control
    // voltage changes every sample, so the carrier keeps retuning and the
    // stream never ends.
    let carrier = modsynth::generator::RampWave::new(440_000).as_raw();
    let lfo = SawWave::new(20_000).as_raw();
    let mut voice = Vco::new(carrier, 440_000, lfo).as_raw();
    let mut first_freq = 0u64;
    let mut last_freq = 0u64;
    for k in 0..2000 {
        assert!(voice.next().is_some());
        if let RawSource::Vco(b) = &voice {
            if let RawSource::Ramp(w) = &b.oscillator {
                if k == 0 {
                    first_freq = w.frequency;
                }
                last_freq = w.frequency;
            } else {
                panic!("the carrier changed shape");
            }
        } else {
            panic!("the node changed shape");
        }
    }
    assert_ne!(first_freq, last_freq, "the sweep must retune the carrier");
}
