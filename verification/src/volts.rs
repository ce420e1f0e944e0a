//! The volt-per-octave pitch scale.
//!
//! A "voltage" is a fixed-point value scaled by 65536, with [-1.0, 1.0]
//! standing for -10 to +10 nominal volts.  One volt (0.1 of full scale) is
//! one octave, so full scale spans 240 semitones centred on the pitch C2
//! (about 65.41 Hz).
//!
//! Frequencies are integers in millihertz.  The exponential `C2 * 2^(10v)`
//! is evaluated on a semitone table, linearly interpolated between
//! semitones: every fixed-point voltage step lands on its own point of the
//! curve (546 steps per semitone), within a twentieth of one percent of
//! the real exponential across the audible band.  The forward conversion
//! clamps its voltage to full scale, as the scale's definition asks; the
//! inverse does not: a frequency outside the ten-octave band maps to a
//! voltage beyond [-1.0, 1.0], as the logarithm does, on a table that runs
//! 20 octaves below C2 to 50 above.  Converting a voltage to a frequency
//! and back returns it exactly wherever a millihertz resolves a voltage
//! step (above roughly half of C2); below that the integer frequency
//! representation itself bounds the resolution, down to a few thousandths
//! of full scale at the very bottom of the band.

use vstd::arithmetic::power2::{lemma2_to64, pow2};
use vstd::prelude::*;

verus! {

/// Fixed-point representation of 1.0: samples and voltages are scaled by this.
pub const VOLT_ONE: i64 = 65536;

/// Frequency of the pitch C2 in millihertz, the base of the pitch scale.
pub const C2_MILLIHERTZ: u64 = 65410;

/// The sample rate every generator runs at, in hertz.
pub const SAMPLE_RATE: u64 = 44100;

/// Ratio 2^(r/12) scaled by 65536, for one octave of semitones.
pub open spec fn semitone_ratio_q16(r: int) -> int {
    if r == 0 {
        65536
    } else if r == 1 {
        69433
    } else if r == 2 {
        73562
    } else if r == 3 {
        77936
    } else if r == 4 {
        82570
    } else if r == 5 {
        87480
    } else if r == 6 {
        92682
    } else if r == 7 {
        98193
    } else if r == 8 {
        104032
    } else if r == 9 {
        110218
    } else if r == 10 {
        116772
    } else {
        123715
    }
}

/// Frequency in millihertz of the semitone `s` counted from C2; the scale
/// doubles every 12 semitones.  Meaningful from the bottom of the table
/// (s = -240, 20 octaves below C2, under a millihertz) to its top
/// (s = 600, 50 octaves up, past every representable frequency).
pub open spec fn semitone_millihertz(s: int) -> int {
    (C2_MILLIHERTZ * semitone_ratio_q16((s + 240) % 12) * pow2((((s + 240) / 12)) as nat))
        / 0x10_0000_0000
}

/// The forward conversion clamps its voltage to [-1.0, 1.0].
pub open spec fn clamp_volt(v: int) -> int {
    if v < -0x10000 {
        -0x10000
    } else if v > 0x10000 {
        0x10000
    } else {
        v
    }
}

/// A voltage's position on the semitone table, in 65536ths of a semitone
/// above the bottom of the ten-octave band.
pub open spec fn volt_position(v: int) -> int {
    clamp_volt(v) * 120 + 7_864_320
}

/// What `frequency_per_volt` returns: the semitone the voltage falls in,
/// linearly interpolated towards the next by the fractional part.
pub open spec fn frequency_of_volt(v: int) -> int {
    let p = volt_position(v);
    let s = p / 0x10000 - 120;
    let u = p % 0x10000;
    semitone_millihertz(s) + u * (semitone_millihertz(s + 1) - semitone_millihertz(s)) / 0x10000
}

/// The greatest semitone at or below `s` whose frequency does not exceed
/// `f`, or the bottom of the table when even that lies above `f`.
pub open spec fn semitone_search(f: int, s: int) -> int
    decreases s + 240,
{
    if s <= -240 {
        -240
    } else if semitone_millihertz(s) <= f {
        s
    } else {
        semitone_search(f, s - 1)
    }
}

/// The semitone `volts_per_frequency` starts from: the greatest anywhere
/// on the table whose frequency does not exceed `f`.
pub open spec fn semitone_for_frequency(f: int) -> int {
    semitone_search(f, 600)
}

/// What `volts_per_frequency` returns: the bracketing semitone plus the
/// linearly interpolated fraction towards the next, rounded to the nearest
/// fixed-point voltage; not clamped to full scale.
pub open spec fn voltage_of_frequency(f: int) -> int {
    let s = semitone_for_frequency(f);
    let f0 = semitone_millihertz(s);
    let delta = semitone_millihertz(s + 1) - f0;
    let u = if delta > 0 {
        (f - f0) * 0x10000 / delta
    } else {
        0
    };
    (s * 0x10000 + u + 60) / 120
}

/// Euclidean (floor) division for signed values, matching the spec-level `/`.
pub fn floor_div_i64(a: i64, b: i64) -> (q: i64)
    requires
        b >= 1,
        -0x4000_0000_0000_0000 <= a <= 0x4000_0000_0000_0000,
    ensures
        q == a as int / b as int,
{
    let qt: i64 = a / b;
    let r: i64 = a % b;
    proof {
        if a >= 0 {
            assert(qt == a as int / b as int);
            assert(r >= 0);
        } else {
            let m = -(a as int);
            let md = m / b as int;
            let mm = m % b as int;
            vstd::arithmetic::div_mod::lemma_fundamental_div_mod(m, b as int);
            assert(qt == -md);
            assert(r == -mm);
            if r < 0 {
                assert((qt as int - 1) * b as int + (b as int - mm) == a as int)
                    by (nonlinear_arith)
                    requires
                        qt as int == -md,
                        m == b as int * md + mm,
                        a as int == -m,
                ;
                vstd::arithmetic::div_mod::lemma_fundamental_div_mod_converse(
                    a as int,
                    b as int,
                    qt as int - 1,
                    b as int - mm,
                );
            } else {
                assert(qt as int * b as int + 0 == a as int) by (nonlinear_arith)
                    requires
                        qt as int == -md,
                        m == b as int * md + mm,
                        a as int == -m,
                        mm == 0,
                ;
                vstd::arithmetic::div_mod::lemma_fundamental_div_mod_converse(
                    a as int,
                    b as int,
                    qt as int,
                    0,
                );
            }
        }
    }
    if r < 0 {
        qt - 1
    } else {
        qt
    }
}

/// 2^q for q <= 70.
fn octave_pow(q: u32) -> (m: u128)
    requires
        q <= 70,
    ensures
        m == pow2(q as nat),
{
    proof {
        lemma2_to64();
    }
    let mut m: u128 = 1;
    let mut i: u32 = 0;
    while i < q
        invariant
            i <= q <= 70,
            m == pow2(i as nat),
        decreases q - i,
    {
        proof {
            lemma2_to64();
            vstd::arithmetic::power2::lemma_pow2_adds(64, 6);
            if (i as nat) < 70 {
                vstd::arithmetic::power2::lemma_pow2_strictly_increases(i as nat, 70);
            }
            assert(pow2((i + 1) as nat) == 2 * pow2(i as nat)) by {
                vstd::arithmetic::power2::lemma_pow2_unfold((i + 1) as nat);
            }
        }
        m = m * 2;
        i = i + 1;
    }
    m
}

/// One octave of semitone ratios, scaled by 65536.
fn semitone_ratio(r: u32) -> (k: u64)
    requires
        r < 12,
    ensures
        k == semitone_ratio_q16(r as int),
        65536 <= k <= 123715,
{
    if r == 0 {
        65536
    } else if r == 1 {
        69433
    } else if r == 2 {
        73562
    } else if r == 3 {
        77936
    } else if r == 4 {
        82570
    } else if r == 5 {
        87480
    } else if r == 6 {
        92682
    } else if r == 7 {
        98193
    } else if r == 8 {
        104032
    } else if r == 9 {
        110218
    } else if r == 10 {
        116772
    } else {
        123715
    }
}

/// The frequency of any semitone of the table, in millihertz; the top
/// octaves exceed 64-bit range, so the result is wide.
fn grid_frequency(s: i32) -> (f: u128)
    requires
        -240 <= s <= 600,
    ensures
        f == semitone_millihertz(s as int),
        f <= 0x10_0000_0000_0000_0000,
{
    let t: u32 = (s + 240) as u32;
    let q: u32 = t / 12;
    let r: u32 = t % 12;
    let ratio: u64 = semitone_ratio(r);
    let m: u128 = octave_pow(q);
    proof {
        lemma2_to64();
        vstd::arithmetic::power2::lemma_pow2_adds(64, 6);
        assert(pow2(70) == 0x40_0000_0000_0000_0000);
        if (q as nat) < 70 {
            vstd::arithmetic::power2::lemma_pow2_strictly_increases(q as nat, 70);
        }
        assert(m <= 0x40_0000_0000_0000_0000);
        assert(65410u128 * (ratio as u128) <= 0x4_0000_0000) by (nonlinear_arith)
            requires
                ratio <= 123715,
        ;
        assert((65410u128 * (ratio as u128)) * m <= 0x4_0000_0000
            * 0x40_0000_0000_0000_0000) by (nonlinear_arith)
            requires
                65410u128 * (ratio as u128) <= 0x4_0000_0000,
                0 <= m <= 0x40_0000_0000_0000_0000,
        ;
        vstd::arithmetic::div_mod::lemma_div_is_ordered(
            (65410u128 * (ratio as u128) * m) as int,
            (0x4_0000_0000 * 0x40_0000_0000_0000_0000) as int,
            0x10_0000_0000,
        );
        assert(0x4_0000_0000 * 0x40_0000_0000_0000_0000 == 0x10_0000_0000
            * 0x10_0000_0000_0000_0000) by (nonlinear_arith);
        vstd::arithmetic::div_mod::lemma_fundamental_div_mod_converse(
            (0x4_0000_0000 * 0x40_0000_0000_0000_0000) as int,
            0x10_0000_0000,
            0x10_0000_0000_0000_0000,
            0,
        );
    }
    let f: u128 = (65410u128 * (ratio as u128)) * m / 0x10_0000_0000u128;
    f
}

/// The frequency of every semitone within the band (and its upper
/// neighbour) lies between the bottom of the ten-octave band and one
/// semitone above its top.
pub proof fn lemma_semitone_frequency_in_range(s: int)
    requires
        -120 <= s <= 121,
    ensures
        63 <= semitone_millihertz(s) <= 70_962_695,
        s <= 120 ==> semitone_millihertz(s) <= 66_979_840,
{
    lemma2_to64();
    let t = s + 240;
    let q = t / 12;
    let r = t % 12;
    vstd::arithmetic::div_mod::lemma_fundamental_div_mod(t, 12);
    assert(0 <= r < 12);
    assert(10 <= q <= 30);
    let num = C2_MILLIHERTZ * semitone_ratio_q16(r) * pow2(q as nat);
    assert(65536 <= semitone_ratio_q16(r) <= 123715);
    if q > 10 {
        vstd::arithmetic::power2::lemma_pow2_strictly_increases(10, q as nat);
    }
    if q < 30 {
        vstd::arithmetic::power2::lemma_pow2_strictly_increases(q as nat, 30);
    }
    assert(0x400 <= pow2(q as nat) <= 0x4000_0000);
    if q == 30 {
        // t <= 361 forces r <= 1 at the top of the band
        assert(r <= 1);
        if r == 0 {
            assert(num == 65410 * 65536 * 0x4000_0000);
            assert(66_979_840 * 0x10_0000_0000 + 0 == 65410 * 65536 * 0x4000_0000)
                by (nonlinear_arith);
            vstd::arithmetic::div_mod::lemma_fundamental_div_mod_converse(
                (65410 * 65536 * 0x4000_0000) as int,
                0x10_0000_0000,
                66_979_840,
                0,
            );
        } else {
            assert(s == 121);
            assert(num == 65410 * 69433 * 0x4000_0000);
            assert(70_962_695 * 0x10_0000_0000 + 53_687_091_200 == 65410 * 69433 * 0x4000_0000)
                by (nonlinear_arith);
            vstd::arithmetic::div_mod::lemma_fundamental_div_mod_converse(
                (65410 * 69433 * 0x4000_0000) as int,
                0x10_0000_0000,
                70_962_695,
                53_687_091_200,
            );
        }
    } else {
        assert(num <= 65410 * 123715 * 0x2000_0000) by (nonlinear_arith)
            requires
                65536 <= semitone_ratio_q16(r) <= 123715,
                1 <= pow2(q as nat) <= 0x2000_0000,
                num == 65410 * semitone_ratio_q16(r) * pow2(q as nat),
        ;
        vstd::arithmetic::div_mod::lemma_div_is_ordered(
            num as int,
            (65410 * 123715 * 0x2000_0000) as int,
            0x10_0000_0000,
        );
    }
    assert(num >= 65410 * 65536 * 0x400) by (nonlinear_arith)
        requires
            semitone_ratio_q16(r) >= 65536,
            pow2(q as nat) >= 0x400,
            num == 65410 * semitone_ratio_q16(r) * pow2(q as nat),
    ;
    assert(semitone_millihertz(s) == num / 0x10_0000_0000);
    vstd::arithmetic::div_mod::lemma_fundamental_div_mod_converse(
        (65410 * 65536 * 0x400) as int,
        0x10_0000_0000,
        63,
        (898 * 0x400_0000) as int,
    );
    vstd::arithmetic::div_mod::lemma_div_is_ordered(
        (65410 * 65536 * 0x400) as int,
        num as int,
        0x10_0000_0000,
    );
}

/// Away from the flat floor at the very bottom of the table, each semitone
/// is strictly higher in frequency than the one below it.
pub proof fn lemma_semitone_step_increases(s: int)
    requires
        -132 <= s < 600,
    ensures
        semitone_millihertz(s) < semitone_millihertz(s + 1),
{
    lemma2_to64();
    let q1 = (s + 240) / 12;
    vstd::arithmetic::div_mod::lemma_div_is_ordered(108, s + 240, 12);
    if q1 > 9 {
        vstd::arithmetic::power2::lemma_pow2_strictly_increases(9, q1 as nat);
    }
    assert(65410 * 3897 * pow2(q1 as nat) >= 65410 * 3897 * 0x200) by (nonlinear_arith)
        requires
            pow2(q1 as nat) >= 0x200,
    ;
    lemma_semitone_delta_floor(s, 1);
}

/// The semitone table never decreases, even on its flat floor.
pub proof fn lemma_semitone_weak_monotonic(s: int)
    requires
        -240 <= s < 600,
    ensures
        semitone_millihertz(s) <= semitone_millihertz(s + 1),
{
    let q1 = (s + 240) / 12;
    vstd::arithmetic::power2::lemma_pow2_pos(q1 as nat);
    assert(65410 * 3897 * pow2(q1 as nat) >= 0) by (nonlinear_arith)
        requires
            pow2(q1 as nat) >= 1,
    ;
    lemma_semitone_delta_floor(s, 0);
}

/// The step from one semitone to the next is at least `k` millihertz
/// whenever `k` full table quanta fit under the numerator gap — the
/// workhorse for resolution bounds at each octave.
pub proof fn lemma_semitone_delta_floor(s: int, k: int)
    requires
        -240 <= s < 600,
        0 <= k,
        k * 0x10_0000_0000 <= 65410 * 3897 * pow2((((s + 240) / 12)) as nat),
    ensures
        semitone_millihertz(s + 1) - semitone_millihertz(s) >= k,
{
    lemma2_to64();
    let t = s + 240;
    let q = t / 12;
    let r = t % 12;
    vstd::arithmetic::div_mod::lemma_fundamental_div_mod(t, 12);
    assert(0 <= r < 12);
    assert(0 <= q <= 69);
    let p = pow2(q as nat);
    vstd::arithmetic::power2::lemma_pow2_pos(q as nat);
    let num1 = C2_MILLIHERTZ * semitone_ratio_q16(r) * p;
    let num2: int;
    if r < 11 {
        vstd::arithmetic::div_mod::lemma_fundamental_div_mod_converse(t + 1, 12, q, r + 1);
        num2 = C2_MILLIHERTZ * semitone_ratio_q16(r + 1) * p;
        assert(num2 - num1 >= 65410 * 3897 * p) by (nonlinear_arith)
            requires
                num1 == 65410 * semitone_ratio_q16(r) * p,
                num2 == 65410 * semitone_ratio_q16(r + 1) * p,
                semitone_ratio_q16(r + 1) - semitone_ratio_q16(r) >= 3897,
                p >= 1,
        ;
    } else {
        vstd::arithmetic::div_mod::lemma_fundamental_div_mod_converse(t + 1, 12, q + 1, 0);
        assert(pow2((q + 1) as nat) == 2 * p) by {
            vstd::arithmetic::power2::lemma_pow2_unfold((q + 1) as nat);
        }
        num2 = C2_MILLIHERTZ * semitone_ratio_q16(0) * pow2((q + 1) as nat);
        assert(num2 - num1 >= 65410 * 3897 * p) by (nonlinear_arith)
            requires
                num1 == 65410 * 123715 * p,
                num2 == 65410 * 65536 * (2 * p),
                p >= 1,
        ;
    }
    assert(semitone_millihertz(s) == num1 / 0x10_0000_0000);
    assert(semitone_millihertz(s + 1) == num2 / 0x10_0000_0000);
    let base = num1 / 0x10_0000_0000;
    let rem = num1 % 0x10_0000_0000;
    vstd::arithmetic::div_mod::lemma_fundamental_div_mod(num1 as int, 0x10_0000_0000);
    assert((num1 + k * 0x10_0000_0000) / 0x10_0000_0000 == base + k) by {
        assert(num1 + k * 0x10_0000_0000 == 0x10_0000_0000 * (base + k) + rem)
            by (nonlinear_arith)
            requires
                num1 == 0x10_0000_0000 * base + rem,
        ;
        vstd::arithmetic::div_mod::lemma_fundamental_div_mod_converse(
            num1 + k * 0x10_0000_0000,
            0x10_0000_0000,
            base + k,
            rem,
        );
    }
    vstd::arithmetic::div_mod::lemma_div_is_ordered(
        num1 + k * 0x10_0000_0000,
        num2,
        0x10_0000_0000,
    );
}

/// Strict monotonicity over the table above its flat floor.
pub proof fn lemma_semitone_monotonic(s1: int, s2: int)
    requires
        -132 <= s1 < s2 <= 600,
    ensures
        semitone_millihertz(s1) < semitone_millihertz(s2),
    decreases s2 - s1,
{
    lemma_semitone_step_increases(s1);
    if s1 + 1 < s2 {
        lemma_semitone_monotonic(s1 + 1, s2);
    }
}

/// What the downward search returns: a semitone at or below the start
/// whose frequency does not exceed `f` (or the bottom of the table), with
/// everything above it on the searched range strictly dearer than `f`.
pub proof fn lemma_search_properties(f: int, top: int)
    requires
        -240 <= top <= 600,
    ensures
        -240 <= semitone_search(f, top) <= top,
        semitone_millihertz(semitone_search(f, top)) <= f || semitone_search(f, top) == -240,
        forall|w: int|
            semitone_search(f, top) < w <= top ==> semitone_millihertz(w) > f,
    decreases top + 240,
{
    if top == -240 {
    } else if semitone_millihertz(top) <= f {
    } else {
        lemma_search_properties(f, top - 1);
    }
}

/// The downward search returns `s` when `s` is the greatest semitone at or
/// below `u` whose frequency does not exceed `f`.
proof fn lemma_search_finds(f: int, u: int, s: int)
    requires
        -240 <= s <= u <= 600,
        semitone_millihertz(s) <= f || s == -240,
        forall|w: int| s < w <= u ==> semitone_millihertz(w) > f,
    ensures
        semitone_search(f, u) == s,
    decreases u - s,
{
    if u == s {
    } else {
        assert(semitone_millihertz(u) > f);
        lemma_search_finds(f, u - 1, s);
    }
}

/// The top of the table lies beyond every 64-bit frequency.
proof fn lemma_table_top_out_of_reach()
    ensures
        semitone_millihertz(600) > 0xffff_ffff_ffff_ffff,
{
    lemma2_to64();
    vstd::arithmetic::power2::lemma_pow2_adds(16, 70);
    vstd::arithmetic::power2::lemma_pow2_adds(36, 50);
    vstd::arithmetic::power2::lemma_pow2_adds(32, 4);
    vstd::arithmetic::power2::lemma_pow2_adds(32, 18);
    vstd::arithmetic::power2::lemma_pow2_adds(64, 6);
    assert(pow2(36) == 0x10_0000_0000);
    assert(pow2(50) == 0x4_0000_0000_0000);
    let num = C2_MILLIHERTZ * semitone_ratio_q16(0) * pow2(70);
    assert(num == 0x10_0000_0000 * (65410 * pow2(50)) + 0) by (nonlinear_arith)
        requires
            pow2(16) * pow2(70) == pow2(36) * pow2(50),
            pow2(36) == 0x10_0000_0000,
            pow2(16) == 65536,
            num == 65410 * 65536 * pow2(70),
    ;
    vstd::arithmetic::div_mod::lemma_fundamental_div_mod_converse(
        num,
        0x10_0000_0000,
        (65410 * pow2(50)) as int,
        0,
    );
    assert(65410 * pow2(50) > 0xffff_ffff_ffff_ffff) by (nonlinear_arith)
        requires
            pow2(50) == 0x4_0000_0000_0000,
    ;
}

/// The bottom of the table floors to zero millihertz.
proof fn lemma_table_bottom_is_zero()
    ensures
        semitone_millihertz(-240) == 0,
{
    lemma2_to64();
    assert(semitone_millihertz(-240) == (65410 * 65536 * 1) / 0x10_0000_0000);
    vstd::arithmetic::div_mod::lemma_fundamental_div_mod_converse(
        (65410 * 65536) as int,
        0x10_0000_0000,
        0,
        (65410 * 65536) as int,
    );
}

/// The frequency of a semitone within full scale, in millihertz.
pub fn semitone_frequency(s: i32) -> (f: u64)
    requires
        -120 <= s <= 120,
    ensures
        f == semitone_millihertz(s as int),
        63 <= f <= 66_979_840,
{
    proof {
        lemma_semitone_frequency_in_range(s as int);
    }
    let f = grid_frequency(s);
    f as u64
}

/// Convert a voltage (fixed-point, clamped to full scale) to a frequency
/// in millihertz on the volt-per-octave scale: the semitone table linearly
/// interpolated at the voltage's exact position.
pub fn frequency_per_volt(volt: i64) -> (f: u64)
    ensures
        f == frequency_of_volt(volt as int),
        63 <= f <= 66_979_840,
{
    let v: i64 = if volt < -0x10000 {
        -0x10000
    } else if volt > 0x10000 {
        0x10000
    } else {
        volt
    };
    let p: i64 = v * 120 + 7_864_320;
    let sr: i64 = p / 0x10000;
    let u: i64 = p % 0x10000;
    let s: i32 = (sr - 120) as i32;
    proof {
        vstd::arithmetic::div_mod::lemma_fundamental_div_mod(p as int, 0x10000);
        assert(-120 <= s <= 120);
        lemma_semitone_frequency_in_range(s as int);
        lemma_semitone_frequency_in_range(s as int + 1);
        lemma_semitone_step_increases(s as int);
    }
    let f0: u128 = grid_frequency(s);
    let f1: u128 = grid_frequency(s + 1);
    let delta: u128 = f1 - f0;
    proof {
        assert((u as u128) * delta <= 65536 * 0x10_0000_0000_0000_0000) by (nonlinear_arith)
            requires
                0 <= u as u128 <= 65535,
                delta <= 0x10_0000_0000_0000_0000,
        ;
    }
    let term: u128 = (u as u128) * delta / 0x10000;
    proof {
        // the interpolated value stays below the next semitone
        assert((u as u128) * delta <= 65536 * delta - 1) by (nonlinear_arith)
            requires
                0 <= u as u128 <= 65535,
                delta >= 1,
        ;
        vstd::arithmetic::div_mod::lemma_div_is_ordered(
            ((u as u128) * delta) as int,
            65536 * delta as int - 1,
            0x10000,
        );
        vstd::arithmetic::div_mod::lemma_fundamental_div_mod_converse(
            65536 * delta as int - 1,
            0x10000,
            delta as int - 1,
            65535,
        );
        vstd::arithmetic::div_mod::lemma_div_pos_is_pos(((u as u128) * delta) as int, 0x10000);
        if s == 120 {
            // the very top of the band is the last table point itself
            assert(p == 15_728_640);
            assert(u == 0);
            assert((0 as u128) * delta == 0) by (nonlinear_arith);
        }
    }
    let f: u128 = f0 + term;
    f as u64
}

/// Convert a frequency in millihertz back to a voltage: the bracketing
/// table semitone plus the linearly interpolated fraction towards the
/// next, rounded to the nearest fixed-point voltage.  The result is not
/// re-clamped: frequencies outside the ten-octave band map beyond full
/// scale, as the logarithm does, limited only by the ends of the table.
pub fn volts_per_frequency(frequency: u64) -> (v: i64)
    ensures
        v == voltage_of_frequency(frequency as int),
        -131072 <= v <= 327680,
{
    let ghost f = frequency as int;
    let mut s: i32 = 600;
    loop
        invariant
            f == frequency as int,
            -240 <= s <= 600,
            semitone_search(f, 600) == semitone_search(f, s as int),
        ensures
            -240 <= s <= 600,
            semitone_search(f, 600) == s as int,
        decreases s + 240,
    {
        if s == -240 {
            break ;
        }
        let fs: u128 = grid_frequency(s);
        if fs <= frequency as u128 {
            proof {
                assert(semitone_search(f, s as int) == s as int);
            }
            break ;
        }
        proof {
            assert(semitone_millihertz(s as int) > f);
            assert(semitone_search(f, s as int) == semitone_search(f, s as int - 1));
        }
        s = s - 1;
    }
    proof {
        lemma_search_properties(f, 600);
        lemma_table_top_out_of_reach();
        assert(s < 600);
        lemma_table_bottom_is_zero();
        lemma_semitone_weak_monotonic(s as int);
    }
    let f0: u128 = grid_frequency(s);
    let f1: u128 = grid_frequency(s + 1);
    let delta: u128 = f1 - f0;
    let u: u128 = if delta > 0 {
        proof {
            // the bracket puts the frequency under the next semitone, so
            // the interpolated fraction stays under one
            assert(f < f1);
            let di = delta as int;
            let xi = frequency as int - f0 as int;
            let num = xi * 0x10000;
            vstd::arithmetic::div_mod::lemma_fundamental_div_mod(num, di);
            vstd::arithmetic::div_mod::lemma_div_pos_is_pos(num, di);
            assert(num / di <= 65535) by (nonlinear_arith)
                requires
                    num == xi * 0x10000,
                    0 <= xi <= di - 1,
                    num == di * (num / di) + (num % di),
                    0 <= num % di < di,
                    di >= 1,
            ;
        }
        (frequency as u128 - f0) * 0x10000 / delta
    } else {
        0
    };
    let a: i64 = (s as i64) * 0x10000 + (u as i64) + 60;
    proof {
        vstd::arithmetic::div_mod::lemma_fundamental_div_mod_converse(-15728580, 120, -131072, 60);
        vstd::arithmetic::div_mod::lemma_fundamental_div_mod_converse(39321659, 120, 327680, 59);
        vstd::arithmetic::div_mod::lemma_div_is_ordered(-15728580, a as int, 120);
        vstd::arithmetic::div_mod::lemma_div_is_ordered(a as int, 39321659, 120);
    }
    floor_div_i64(a, 120)
}

/// Round-trip law: converting a voltage to a frequency and back returns it
/// exactly wherever a millihertz resolves one fixed-point voltage step —
/// everywhere above one octave below C2 — never overshooting; further
/// down, the integer frequency representation coarsens the result, to one
/// step above six hertz and a few thousandths of full scale at the very
/// bottom of the band.
pub proof fn lemma_voltage_frequency_round_trip(v: int)
    requires
        -0x10000 <= v <= 0x10000,
    ensures
        voltage_of_frequency(frequency_of_volt(v)) <= v,
        v - voltage_of_frequency(frequency_of_volt(v)) <= 182,
        v >= -19660 ==> v - voltage_of_frequency(frequency_of_volt(v)) <= 1,
        v >= -6553 ==> voltage_of_frequency(frequency_of_volt(v)) == v,
{
    lemma2_to64();
    let p = v * 120 + 7_864_320;
    let sr = p / 0x10000;
    let u = p % 0x10000;
    vstd::arithmetic::div_mod::lemma_fundamental_div_mod(p, 0x10000);
    let s = sr - 120;
    assert(-120 <= s <= 120);
    let f0 = semitone_millihertz(s);
    let f1 = semitone_millihertz(s + 1);
    let delta = f1 - f0;
    lemma_semitone_frequency_in_range(s);
    lemma_semitone_frequency_in_range(s + 1);
    // how many millihertz one semitone spans at this position
    let q1 = (s + 240) / 12;
    vstd::arithmetic::div_mod::lemma_div_is_ordered(120, s + 240, 12);
    if q1 > 10 {
        vstd::arithmetic::power2::lemma_pow2_strictly_increases(10, q1 as nat);
    }
    assert(65410 * 3897 * pow2(q1 as nat) >= 65410 * 3897 * 0x400) by (nonlinear_arith)
        requires
            pow2(q1 as nat) >= 0x400,
    ;
    lemma_semitone_delta_floor(s, 3);
    assert(delta >= 3);
    if v >= -19660 {
        vstd::arithmetic::div_mod::lemma_fundamental_div_mod_converse(5505120, 0x10000, 84, 96);
        vstd::arithmetic::div_mod::lemma_div_is_ordered(5505120, p, 0x10000);
        assert(s >= -36);
        vstd::arithmetic::div_mod::lemma_div_is_ordered(204, s + 240, 12);
        if q1 > 17 {
            vstd::arithmetic::power2::lemma_pow2_strictly_increases(17, q1 as nat);
        }
        assert(65410 * 3897 * pow2(q1 as nat) >= 65410 * 3897 * 0x20000) by (nonlinear_arith)
            requires
                pow2(q1 as nat) >= 0x20000,
        ;
        lemma_semitone_delta_floor(s, 365);
    }
    if v >= -6553 {
        vstd::arithmetic::div_mod::lemma_fundamental_div_mod_converse(7077960, 0x10000, 108, 72);
        vstd::arithmetic::div_mod::lemma_div_is_ordered(7077960, p, 0x10000);
        assert(s >= -12);
        vstd::arithmetic::div_mod::lemma_div_is_ordered(228, s + 240, 12);
        if q1 > 19 {
            vstd::arithmetic::power2::lemma_pow2_strictly_increases(19, q1 as nat);
        }
        assert(65410 * 3897 * pow2(q1 as nat) >= 65410 * 3897 * 0x80000) by (nonlinear_arith)
            requires
                pow2(q1 as nat) >= 0x80000,
        ;
        lemma_semitone_delta_floor(s, 1093);
    }
    // the forward value and its bracket
    let term = u * delta / 0x10000;
    let ff = f0 + term;
    assert(ff == frequency_of_volt(v));
    vstd::arithmetic::div_mod::lemma_div_pos_is_pos(u * delta, 0x10000);
    assert(u * delta <= 65536 * delta - 1) by (nonlinear_arith)
        requires
            0 <= u <= 65535,
            delta >= 1,
    ;
    vstd::arithmetic::div_mod::lemma_div_is_ordered(u * delta, 65536 * delta - 1, 0x10000);
    vstd::arithmetic::div_mod::lemma_fundamental_div_mod_converse(
        65536 * delta - 1,
        0x10000,
        delta - 1,
        65535,
    );
    assert(f0 <= ff < f1);
    // the search lands back on the same semitone
    assert forall|w: int| s < w <= 600 implies semitone_millihertz(w) > ff by {
        if w > s + 1 {
            lemma_semitone_monotonic(s + 1, w);
        }
    }
    lemma_search_finds(ff, 600, s);
    assert(semitone_for_frequency(ff) == s);
    // the inverse fraction undershoots the forward one by the division
    // remainder, under one table quantum
    let r1 = (u * delta) % 0x10000;
    vstd::arithmetic::div_mod::lemma_fundamental_div_mod(u * delta, 0x10000);
    assert((ff - f0) * 0x10000 == u * delta - r1) by (nonlinear_arith)
        requires
            u * delta == 0x10000 * term + r1,
            ff - f0 == term,
    ;
    let qq = (-r1) / delta;
    let rr = (-r1) % delta;
    vstd::arithmetic::div_mod::lemma_fundamental_div_mod(-r1, delta);
    let uu = (ff - f0) * 0x10000 / delta;
    assert(u * delta - r1 == delta * (u + qq) + rr) by (nonlinear_arith)
        requires
            -r1 == delta * qq + rr,
    ;
    vstd::arithmetic::div_mod::lemma_fundamental_div_mod_converse(
        u * delta - r1,
        delta,
        u + qq,
        rr,
    );
    assert(uu == u + qq);
    vstd::arithmetic::div_mod::lemma_div_is_ordered(-r1, 0, delta);
    assert(qq <= 0);
    // lower bounds on the fraction error, per resolution band
    assert(-r1 >= -21845 * delta) by (nonlinear_arith)
        requires
            r1 <= 65535,
            delta >= 3,
    ;
    vstd::arithmetic::div_mod::lemma_div_is_ordered(-21845 * delta, -r1, delta);
    assert((-21845 * delta) / delta == -21845) by {
        assert(-21845 * delta == delta * -21845 + 0) by (nonlinear_arith);
        vstd::arithmetic::div_mod::lemma_fundamental_div_mod_converse(
            -21845 * delta,
            delta,
            -21845,
            0,
        );
    }
    assert(qq >= -21845);
    if v >= -19660 {
        assert(-r1 >= -180 * delta) by (nonlinear_arith)
            requires
                r1 <= 65535,
                delta >= 365,
        ;
        vstd::arithmetic::div_mod::lemma_div_is_ordered(-180 * delta, -r1, delta);
        assert((-180 * delta) / delta == -180) by {
            assert(-180 * delta == delta * -180 + 0) by (nonlinear_arith);
            vstd::arithmetic::div_mod::lemma_fundamental_div_mod_converse(
                -180 * delta,
                delta,
                -180,
                0,
            );
        }
        assert(qq >= -180);
    }
    if v >= -6553 {
        assert(-r1 >= -60 * delta) by (nonlinear_arith)
            requires
                r1 <= 65535,
                delta >= 1093,
        ;
        vstd::arithmetic::div_mod::lemma_div_is_ordered(-60 * delta, -r1, delta);
        assert((-60 * delta) / delta == -60) by {
            assert(-60 * delta == delta * -60 + 0) by (nonlinear_arith);
            vstd::arithmetic::div_mod::lemma_fundamental_div_mod_converse(
                -60 * delta,
                delta,
                -60,
                0,
            );
        }
        assert(qq >= -60);
    }
    // the rounded voltage moves by the fraction error over the step ratio
    let back = voltage_of_frequency(ff);
    assert(s * 0x10000 + uu + 60 == 120 * v + (qq + 60)) by (nonlinear_arith)
        requires
            p == 0x10000 * sr + u,
            p == v * 120 + 7_864_320,
            s == sr - 120,
            uu == u + qq,
    ;
    let k2 = (qq + 60) / 120;
    let rr2 = (qq + 60) % 120;
    vstd::arithmetic::div_mod::lemma_fundamental_div_mod(qq + 60, 120);
    assert(120 * v + (qq + 60) == 120 * (v + k2) + rr2) by (nonlinear_arith)
        requires
            qq + 60 == 120 * k2 + rr2,
    ;
    vstd::arithmetic::div_mod::lemma_fundamental_div_mod_converse(
        120 * v + (qq + 60),
        120,
        v + k2,
        rr2,
    );
    assert(back == v + k2);
    // translate the fraction bounds into voltage steps
    vstd::arithmetic::div_mod::lemma_div_is_ordered(qq + 60, 60, 120);
    vstd::arithmetic::div_mod::lemma_fundamental_div_mod_converse(60, 120, 0, 60);
    assert(k2 <= 0);
    vstd::arithmetic::div_mod::lemma_div_is_ordered(-21785, qq + 60, 120);
    vstd::arithmetic::div_mod::lemma_fundamental_div_mod_converse(-21785, 120, -182, 55);
    assert(k2 >= -182);
    if v >= -19660 {
        vstd::arithmetic::div_mod::lemma_div_is_ordered(-120, qq + 60, 120);
        vstd::arithmetic::div_mod::lemma_fundamental_div_mod_converse(-120, 120, -1, 0);
        assert(k2 >= -1);
    }
    if v >= -6553 {
        vstd::arithmetic::div_mod::lemma_div_is_ordered(0, qq + 60, 120);
        vstd::arithmetic::div_mod::lemma_fundamental_div_mod_converse(0, 120, 0, 0);
        assert(k2 == 0);
    }
}

} // verus!

verus! {

/// The inverse conversion never decreases with frequency: of two
/// representable frequencies, the higher never maps below the lower's
/// voltage.  (It grows strictly wherever a voltage step resolves the
/// difference, as the round-trip law pins down.)
pub proof fn lemma_voltage_of_frequency_monotonic(fa: int, fb: int)
    requires
        0 <= fa <= fb <= 0xffff_ffff_ffff_ffff,
    ensures
        voltage_of_frequency(fa) <= voltage_of_frequency(fb),
{
    lemma_search_properties(fa, 600);
    lemma_search_properties(fb, 600);
    lemma_table_top_out_of_reach();
    lemma_table_bottom_is_zero();
    let sa = semitone_for_frequency(fa);
    let sb = semitone_for_frequency(fb);
    assert(sa < 600);
    assert(sb < 600);
    if sa > sb {
        // the lower frequency's semitone would out-price the higher one
        assert(semitone_millihertz(sa) > fb);
        assert(false);
    }
    lemma_semitone_weak_monotonic(sa);
    lemma_semitone_weak_monotonic(sb);
    let f0a = semitone_millihertz(sa);
    let da = semitone_millihertz(sa + 1) - f0a;
    let f0b = semitone_millihertz(sb);
    let db = semitone_millihertz(sb + 1) - f0b;
    assert(f0a <= fa);
    assert(fa < semitone_millihertz(sa + 1));
    assert(f0b <= fb);
    assert(fb < semitone_millihertz(sb + 1));
    let ua = if da > 0 {
        (fa - f0a) * 0x10000 / da
    } else {
        0int
    };
    let ub = if db > 0 {
        (fb - f0b) * 0x10000 / db
    } else {
        0int
    };
    if da > 0 {
        let num = (fa - f0a) * 0x10000;
        vstd::arithmetic::div_mod::lemma_fundamental_div_mod(num, da);
        vstd::arithmetic::div_mod::lemma_div_pos_is_pos(num, da);
        assert(num / da <= 65535) by (nonlinear_arith)
            requires
                num == (fa - f0a) * 0x10000,
                0 <= fa - f0a <= da - 1,
                num == da * (num / da) + (num % da),
                0 <= num % da < da,
                da >= 1,
        ;
    }
    if db > 0 {
        vstd::arithmetic::div_mod::lemma_div_pos_is_pos((fb - f0b) * 0x10000, db);
    }
    assert(0 <= ua <= 65535);
    assert(0 <= ub);
    let aa = sa * 0x10000 + ua + 60;
    let ab = sb * 0x10000 + ub + 60;
    if sa == sb {
        if da > 0 {
            vstd::arithmetic::div_mod::lemma_div_is_ordered(
                (fa - f0a) * 0x10000,
                (fb - f0b) * 0x10000,
                da,
            );
        }
        assert(ua <= ub);
    } else {
        assert(aa <= (sa + 1) * 0x10000 + 59);
        assert((sa + 1) * 0x10000 <= sb * 0x10000) by (nonlinear_arith)
            requires
                sa + 1 <= sb,
        ;
        assert(aa < ab);
    }
    vstd::arithmetic::div_mod::lemma_div_is_ordered(aa, ab, 120);
}

} // verus!

verus! {

/// Approximate invertibility on the frequency side: converting an in-band
/// frequency to a voltage and back moves it by at most sixty 65536ths of
/// the three-semitone span around it (about four hundredths of one
/// percent), plus two millihertz of rounding.
pub proof fn lemma_frequency_voltage_round_trip(f: int)
    requires
        63 <= f <= 66_979_840,
    ensures
        ({
            let s = semitone_for_frequency(f);
            let slack = 60 * (semitone_millihertz(s + 2) - semitone_millihertz(s - 1)) / 0x10000
                + 2;
            f - slack <= frequency_of_volt(voltage_of_frequency(f)) <= f + slack
        }),
{
    lemma2_to64();
    lemma_search_properties(f, 600);
    let s = semitone_for_frequency(f);
    // the search stays within the ten-octave band
    lemma_semitone_frequency_in_range(-120);
    assert(semitone_millihertz(-120) == 63) by {
        vstd::arithmetic::div_mod::lemma_fundamental_div_mod_converse(
            (65410 * 65536 * 0x400) as int,
            0x10_0000_0000,
            63,
            (898 * 0x400_0000) as int,
        );
    }
    if s < -120 {
        assert(semitone_millihertz(-120) > f);
        assert(false);
    }
    lemma_semitone_frequency_in_range(120);
    lemma_semitone_frequency_in_range(121);
    lemma_semitone_step_increases(120);
    assert(semitone_millihertz(120) == 66_979_840) by {
        assert(66_979_840 * 0x10_0000_0000 + 0 == 65410 * 65536 * 0x4000_0000)
            by (nonlinear_arith);
        vstd::arithmetic::div_mod::lemma_fundamental_div_mod_converse(
            (65410 * 65536 * 0x4000_0000) as int,
            0x10_0000_0000,
            66_979_840,
            0,
        );
    }
    if s > 120 {
        assert(semitone_millihertz(s) <= f);
        lemma_semitone_monotonic(120, s);
        assert(false);
    }
    let lo = semitone_millihertz(s - 1);
    let f0 = semitone_millihertz(s);
    let f1 = semitone_millihertz(s + 1);
    let hi2 = semitone_millihertz(s + 2);
    lemma_semitone_weak_monotonic(s - 1);
    lemma_semitone_weak_monotonic(s);
    lemma_semitone_weak_monotonic(s + 1);
    lemma_semitone_step_increases(s);
    let delta = f1 - f0;
    let dlo = f0 - lo;
    let dhi = hi2 - f1;
    assert(delta >= 1 && dlo >= 0 && dhi >= 0);
    assert(f0 <= f);
    assert(f < f1);
    let x = f - f0;
    // the inverse's fraction within the semitone
    let u = (x * 0x10000) / delta;
    let r2 = (x * 0x10000) % delta;
    vstd::arithmetic::div_mod::lemma_fundamental_div_mod(x * 0x10000, delta);
    vstd::arithmetic::div_mod::lemma_div_pos_is_pos(x * 0x10000, delta);
    assert(u <= 65535) by (nonlinear_arith)
        requires
            0 <= x <= delta - 1,
            x * 0x10000 == delta * u + r2,
            0 <= r2 < delta,
            delta >= 1,
    ;
    assert(voltage_of_frequency(f) == (s * 0x10000 + u + 60) / 120);
    let a = s * 0x10000 + u + 60;
    let vv = a / 120;
    let rr = a % 120;
    vstd::arithmetic::div_mod::lemma_fundamental_div_mod(a, 120);
    // the voltage lands within full scale
    if s == 120 {
        assert(x == 0);
        assert(x * 0x10000 == 0) by (nonlinear_arith)
            requires
                x == 0,
        ;
        vstd::arithmetic::div_mod::lemma_div_of0(delta);
        assert(u == 0);
    }
    vstd::arithmetic::div_mod::lemma_fundamental_div_mod_converse(-7864260, 120, -65536, 60);
    vstd::arithmetic::div_mod::lemma_div_is_ordered(-7864260, a, 120);
    vstd::arithmetic::div_mod::lemma_fundamental_div_mod_converse(7864380, 120, 65536, 60);
    vstd::arithmetic::div_mod::lemma_div_is_ordered(a, 7864380, 120);
    assert(-65536 <= vv <= 65536);
    // the forward pass re-reads the position the rounding shifted
    let p2 = vv * 120 + 7_864_320;
    assert(p2 == (s + 120) * 0x10000 + (u + 60 - rr)) by (nonlinear_arith)
        requires
            a == 120 * vv + rr,
            a == s * 0x10000 + u + 60,
            p2 == vv * 120 + 7_864_320,
    ;
    let c = u + 60 - rr;
    assert(u - 59 <= c <= u + 60);
    let slack = 60 * (hi2 - lo) / 0x10000 + 2;
    vstd::arithmetic::div_mod::lemma_div_pos_is_pos(60 * (hi2 - lo), 0x10000);
    // each neighbouring span fits under the three-semitone slack
    vstd::arithmetic::div_mod::lemma_div_is_ordered(60 * delta, 60 * (hi2 - lo), 0x10000);
    vstd::arithmetic::div_mod::lemma_div_is_ordered(60 * dlo, 60 * (hi2 - lo), 0x10000);
    vstd::arithmetic::div_mod::lemma_div_is_ordered(60 * dhi, 60 * (hi2 - lo), 0x10000);
    vstd::arithmetic::div_mod::lemma_div_is_ordered(
        60 * delta + 60 * dhi,
        60 * (hi2 - lo),
        0x10000,
    );
    let back = frequency_of_volt(vv as int);
    if 0 <= c <= 65535 {
        vstd::arithmetic::div_mod::lemma_fundamental_div_mod_converse(p2, 0x10000, s + 120, c);
        assert(back == f0 + c * delta / 0x10000);
        vstd::arithmetic::div_mod::lemma_div_pos_is_pos(c * delta, 0x10000);
        // upper: the shifted fraction gains at most sixty steps
        assert(c * delta <= x * 0x10000 + 60 * delta) by (nonlinear_arith)
            requires
                c <= u + 60,
                delta >= 1,
                delta * u <= x * 0x10000,
        ;
        assert((x * 0x10000 + 60 * delta) / 0x10000 == x + 60 * delta / 0x10000) by {
            let k = 60 * delta / 0x10000;
            let kr = (60 * delta) % 0x10000;
            vstd::arithmetic::div_mod::lemma_fundamental_div_mod(60 * delta, 0x10000);
            assert(x * 0x10000 + 60 * delta == 0x10000 * (x + k) + kr) by (nonlinear_arith)
                requires
                    60 * delta == 0x10000 * k + kr,
            ;
            vstd::arithmetic::div_mod::lemma_fundamental_div_mod_converse(
                x * 0x10000 + 60 * delta,
                0x10000,
                x + k,
                kr,
            );
        }
        vstd::arithmetic::div_mod::lemma_div_is_ordered(
            c * delta,
            x * 0x10000 + 60 * delta,
            0x10000,
        );
        assert(back <= f + 60 * delta / 0x10000);
        // lower: it loses at most sixty steps and one quantum
        assert(c * delta >= x * 0x10000 - 60 * delta) by (nonlinear_arith)
            requires
                c >= u - 59,
                c >= 0,
                delta >= 1,
                x * 0x10000 == delta * u + r2,
                0 <= r2 < delta,
                0 <= x,
        ;
        assert((x * 0x10000 - 60 * delta) / 0x10000 >= x - 60 * delta / 0x10000 - 1) by {
            let k = 60 * delta / 0x10000;
            let kr = (60 * delta) % 0x10000;
            vstd::arithmetic::div_mod::lemma_fundamental_div_mod(60 * delta, 0x10000);
            if kr == 0 {
                assert(x * 0x10000 - 60 * delta == 0x10000 * (x - k) + 0) by (nonlinear_arith)
                    requires
                        60 * delta == 0x10000 * k + kr,
                        kr == 0,
                ;
                vstd::arithmetic::div_mod::lemma_fundamental_div_mod_converse(
                    x * 0x10000 - 60 * delta,
                    0x10000,
                    x - k,
                    0,
                );
            } else {
                assert(x * 0x10000 - 60 * delta == 0x10000 * (x - k - 1) + (0x10000 - kr))
                    by (nonlinear_arith)
                    requires
                        60 * delta == 0x10000 * k + kr,
                ;
                vstd::arithmetic::div_mod::lemma_fundamental_div_mod_converse(
                    x * 0x10000 - 60 * delta,
                    0x10000,
                    x - k - 1,
                    0x10000 - kr,
                );
            }
        }
        vstd::arithmetic::div_mod::lemma_div_is_ordered(
            x * 0x10000 - 60 * delta,
            c * delta,
            0x10000,
        );
        assert(back >= f - 60 * delta / 0x10000 - 1);
    } else if c < 0 {
        // the rounding slipped just under the semitone boundary
        assert(u <= 58);
        vstd::arithmetic::div_mod::lemma_fundamental_div_mod_converse(
            p2,
            0x10000,
            s + 119,
            c + 0x10000,
        );
        assert(back == lo + (c + 0x10000) * dlo / 0x10000);
        vstd::arithmetic::div_mod::lemma_div_pos_is_pos((c + 0x10000) * dlo, 0x10000);
        // it lands at most one span below, within a whisker of its top
        assert((c + 0x10000) * dlo <= 0x10000 * dlo) by (nonlinear_arith)
            requires
                c < 0,
                dlo >= 0,
        ;
        vstd::arithmetic::div_mod::lemma_div_is_ordered(
            (c + 0x10000) * dlo,
            0x10000 * dlo,
            0x10000,
        );
        assert(0x10000 * dlo / 0x10000 == dlo) by {
            vstd::arithmetic::div_mod::lemma_div_multiples_vanish(dlo, 0x10000);
        }
        assert(back <= f0);
        assert(back <= f + slack);
        assert((c + 0x10000) * dlo >= 0x10000 * dlo - 60 * dlo) by (nonlinear_arith)
            requires
                c >= -59,
                dlo >= 0,
        ;
        assert((0x10000 * dlo - 60 * dlo) / 0x10000 >= dlo - 60 * dlo / 0x10000 - 1) by {
            let k = 60 * dlo / 0x10000;
            let kr = (60 * dlo) % 0x10000;
            vstd::arithmetic::div_mod::lemma_fundamental_div_mod(60 * dlo, 0x10000);
            if kr == 0 {
                assert(0x10000 * dlo - 60 * dlo == 0x10000 * (dlo - k) + 0) by (nonlinear_arith)
                    requires
                        60 * dlo == 0x10000 * k + kr,
                        kr == 0,
                ;
                vstd::arithmetic::div_mod::lemma_fundamental_div_mod_converse(
                    0x10000 * dlo - 60 * dlo,
                    0x10000,
                    dlo - k,
                    0,
                );
            } else {
                assert(0x10000 * dlo - 60 * dlo == 0x10000 * (dlo - k - 1) + (0x10000 - kr))
                    by (nonlinear_arith)
                    requires
                        60 * dlo == 0x10000 * k + kr,
                ;
                vstd::arithmetic::div_mod::lemma_fundamental_div_mod_converse(
                    0x10000 * dlo - 60 * dlo,
                    0x10000,
                    dlo - k - 1,
                    0x10000 - kr,
                );
            }
        }
        vstd::arithmetic::div_mod::lemma_div_is_ordered(
            0x10000 * dlo - 60 * dlo,
            (c + 0x10000) * dlo,
            0x10000,
        );
        assert(back >= f0 - 60 * dlo / 0x10000 - 1);
        // the frequency itself sits just above the boundary
        assert(x * 0x10000 <= 59 * delta + delta - 1) by (nonlinear_arith)
            requires
                x * 0x10000 == delta * u + r2,
                u <= 58,
                0 <= r2 < delta,
        ;
        assert(x <= 60 * delta / 0x10000 + 1) by {
            vstd::arithmetic::div_mod::lemma_div_is_ordered(x * 0x10000, 60 * delta, 0x10000);
            vstd::arithmetic::div_mod::lemma_div_multiples_vanish(x, 0x10000);
            assert(x * 0x10000 == 0x10000 * x) by (nonlinear_arith);
            assert(59 * delta + delta - 1 <= 60 * delta);
        }
        assert(back >= f - slack);
    } else {
        // the rounding slipped just over the semitone boundary
        assert(c >= 0x10000);
        assert(u >= 65476);
        vstd::arithmetic::div_mod::lemma_fundamental_div_mod_converse(
            p2,
            0x10000,
            s + 121,
            c - 0x10000,
        );
        assert(back == f1 + (c - 0x10000) * dhi / 0x10000);
        vstd::arithmetic::div_mod::lemma_div_pos_is_pos((c - 0x10000) * dhi, 0x10000);
        assert(back >= f1);
        assert(back >= f - slack);
        // it lands at most a whisker into the span above
        assert((c - 0x10000) * dhi <= 60 * dhi) by (nonlinear_arith)
            requires
                c <= u + 60,
                u <= 65535,
                dhi >= 0,
        ;
        vstd::arithmetic::div_mod::lemma_div_is_ordered(
            (c - 0x10000) * dhi,
            60 * dhi,
            0x10000,
        );
        // and the frequency itself sits just under the boundary
        assert(x * 0x10000 >= 65476 * delta) by (nonlinear_arith)
            requires
                x * 0x10000 == delta * u + r2,
                u >= 65476,
                r2 >= 0,
                delta >= 1,
        ;
        assert(f1 <= f + 60 * delta / 0x10000 + 1) by {
            assert(0x10000 * (delta - x) <= 0x10000 * delta - 65476 * delta) by (nonlinear_arith)
                requires
                    x * 0x10000 >= 65476 * delta,
                    x * 0x10000 == 0x10000 * x,
            ;
            assert(0x10000 * delta - 65476 * delta == 60 * delta) by (nonlinear_arith);
            vstd::arithmetic::div_mod::lemma_div_is_ordered(
                0x10000 * (delta - x),
                60 * delta,
                0x10000,
            );
            vstd::arithmetic::div_mod::lemma_div_multiples_vanish(delta - x, 0x10000);
        }
        assert(back <= f + 60 * delta / 0x10000 + 1 + 60 * dhi / 0x10000);
        assert(60 * delta / 0x10000 + 60 * dhi / 0x10000 <= 60 * (hi2 - lo) / 0x10000 + 1) by {
            let ka = 60 * delta / 0x10000;
            let kb = 60 * dhi / 0x10000;
            vstd::arithmetic::div_mod::lemma_fundamental_div_mod(60 * delta, 0x10000);
            vstd::arithmetic::div_mod::lemma_fundamental_div_mod(60 * dhi, 0x10000);
            vstd::arithmetic::div_mod::lemma_div_is_ordered(
                0x10000 * (ka + kb),
                60 * (hi2 - lo),
                0x10000,
            );
            vstd::arithmetic::div_mod::lemma_div_multiples_vanish(ka + kb, 0x10000);
            assert(0x10000 * (ka + kb) <= 60 * delta + 60 * dhi) by (nonlinear_arith)
                requires
                    60 * delta == 0x10000 * ka + (60 * delta) % 0x10000,
                    60 * dhi == 0x10000 * kb + (60 * dhi) % 0x10000,
                    (60 * delta) % 0x10000 >= 0,
                    (60 * dhi) % 0x10000 >= 0,
            ;
            assert(60 * delta + 60 * dhi == 60 * (hi2 - f0));
            vstd::arithmetic::div_mod::lemma_div_is_ordered(
                60 * (hi2 - f0),
                60 * (hi2 - lo),
                0x10000,
            );
        }
        assert(back <= f + slack);
    }
    // fold the single-span bounds of the common case into the slack
    assert(back <= f + slack);
    assert(back >= f - slack);
}

} // verus!
