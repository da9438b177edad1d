//! The frequency of a note, in whole millihertz.
//!
//! In equal temperament a semitone is the twelfth root of two, and the A
//! above middle C, note 69, sounds at 440 Hz. The twelve notes of the
//! highest octave are kept in a table, each rounded down to the millihertz;
//! every octave below halves them.

use vstd::prelude::*;
use crate::event::DATA_MAX;

verus! {

/// The frequency of note 69, in millihertz.
pub const CONCERT_A: u64 = 440_000;

/// The frequency of note 117, four octaves above note 69, in millihertz.
pub const TOP_A: u64 = 7_040_000;

/// The lowest note of the highest octave.
pub const TOP_OCTAVE: u8 = 116;

/// `x` to the power twelve.
pub open spec fn twelfth_power(x: int) -> int {
    let x2 = x * x;
    let x4 = x2 * x2;
    x4 * x4 * x4
}

/// Two to the power `n`.
pub open spec fn two_to(n: nat) -> int
    decreases n,
{
    if n == 0 {
        1
    } else {
        2 * two_to((n - 1) as nat)
    }
}

/// The frequency of note `116 + semitone`, in millihertz, rounded down.
pub open spec fn top_octave(semitone: int) -> int {
    if semitone == 0 {
        6_644_875
    } else if semitone == 1 {
        7_040_000
    } else if semitone == 2 {
        7_458_620
    } else if semitone == 3 {
        7_902_132
    } else if semitone == 4 {
        8_372_018
    } else if semitone == 5 {
        8_869_844
    } else if semitone == 6 {
        9_397_272
    } else if semitone == 7 {
        9_956_063
    } else if semitone == 8 {
        10_548_081
    } else if semitone == 9 {
        11_175_303
    } else if semitone == 10 {
        11_839_821
    } else {
        12_543_853
    }
}

/// The place of a note within its octave, counted from the place of
/// note 116.
pub open spec fn semitone_of(note: int) -> int {
    (note + 4) % 12
}

/// The number of octaves between a note and the note of the same name in
/// the highest octave.
pub open spec fn octaves_down(note: int) -> int {
    (TOP_OCTAVE as int + semitone_of(note) - note) / 12
}

/// `x` halved `times` times, rounded down.
pub open spec fn halved(x: int, times: nat) -> int
    decreases times,
{
    if times == 0 {
        x
    } else {
        halved(x, (times - 1) as nat) / 2
    }
}

/// The frequency of a note, in millihertz, rounded down:
/// `440 * 2^((note - 69) / 12)` Hz.
pub open spec fn millihertz(note: int) -> int {
    halved(top_octave(semitone_of(note)), octaves_down(note) as nat)
}

/// Each entry of the table is the frequency of its note rounded down: the
/// entry for the note `semitone - 1` semitones above note 117 is the largest
/// whole number whose twelfth power does not exceed the twelfth power of the
/// frequency of note 117 times two to the power `semitone - 1`.
pub proof fn lemma_top_octave_exact(semitone: int)
    requires
        0 <= semitone < 12,
    ensures
        2 * twelfth_power(top_octave(semitone)) <= twelfth_power(TOP_A as int) * two_to(
            semitone as nat,
        ),
        twelfth_power(TOP_A as int) * two_to(semitone as nat) < 2 * twelfth_power(
            top_octave(semitone) + 1,
        ),
{
    reveal_with_fuel(two_to, 13);
    let t = top_octave(semitone);
    let p = two_to(semitone as nat);
    assert(2 * twelfth_power(t) <= twelfth_power(7_040_000) * p && twelfth_power(7_040_000) * p < 2
        * twelfth_power(t + 1)) by (nonlinear_arith)
        requires
            (t == 6_644_875 && p == 1) || (t == 7_040_000 && p == 2) || (t == 7_458_620 && p == 4)
                || (t == 7_902_132 && p == 8) || (t == 8_372_018 && p == 16) || (t == 8_869_844
                && p == 32) || (t == 9_397_272 && p == 64) || (t == 9_956_063 && p == 128) || (t
                == 10_548_081 && p == 256) || (t == 11_175_303 && p == 512) || (t == 11_839_821
                && p == 1024) || (t == 12_543_853 && p == 2048),
    ;
}

/// Halving `times` times, rounding down each time, is dividing by two to
/// the power `times` and rounding down once.
pub proof fn lemma_halved_bounds(x: int, times: nat)
    requires
        x >= 0,
    ensures
        halved(x, times) >= 0,
        two_to(times) > 0,
        halved(x, times) * two_to(times) <= x < (halved(x, times) + 1) * two_to(times),
    decreases times,
{
    if times > 0 {
        lemma_halved_bounds(x, (times - 1) as nat);
        let h = halved(x, (times - 1) as nat);
        let p = two_to((times - 1) as nat);
        assert((h / 2) * (2 * p) <= x < (h / 2 + 1) * (2 * p)) by (nonlinear_arith)
            requires
                h * p <= x < (h + 1) * p,
                h >= 0,
                p > 0,
        ;
    }
}

/// The twelfth power grows with its base.
pub proof fn lemma_twelfth_power_grows(a: int, b: int)
    requires
        0 <= a <= b,
    ensures
        0 <= twelfth_power(a) <= twelfth_power(b),
{
    let a2 = a * a;
    let b2 = b * b;
    assert(0 <= a2 <= b2) by (nonlinear_arith)
        requires
            0 <= a <= b,
            a2 == a * a,
            b2 == b * b,
    ;
    let a4 = a2 * a2;
    let b4 = b2 * b2;
    assert(0 <= a4 <= b4) by (nonlinear_arith)
        requires
            0 <= a2 <= b2,
            a4 == a2 * a2,
            b4 == b2 * b2,
    ;
    assert(0 <= a4 * a4 * a4 <= b4 * b4 * b4) by (nonlinear_arith)
        requires
            0 <= a4 <= b4,
    ;
}

/// The frequency of every note is `440 * 2^((note - 69) / 12)` Hz rounded
/// down to the millihertz. Stated in whole numbers, with `k` the octaves and
/// `s - 1` the semitones between the note and note 117: the frequency times
/// `2^k` is at most the frequency of note 117 times `2^((s - 1) / 12)`, and
/// the frequency plus one, times `2^k`, is more.
pub proof fn lemma_note_frequency(note: int)
    requires
        0 <= note <= DATA_MAX,
    ensures
        ({
            let f = millihertz(note);
            let k = two_to(octaves_down(note) as nat);
            let s = semitone_of(note) as nat;
            &&& f >= 0
            &&& 2 * twelfth_power(f * k) <= twelfth_power(TOP_A as int) * two_to(s)
            &&& twelfth_power(TOP_A as int) * two_to(s) < 2 * twelfth_power((f + 1) * k)
        }),
{
    let s = semitone_of(note);
    let t = top_octave(s);
    let octaves = octaves_down(note) as nat;
    let f = millihertz(note);
    let k = two_to(octaves);
    lemma_top_octave_exact(s);
    lemma_halved_bounds(t, octaves);
    assert(0 <= f * k) by (nonlinear_arith)
        requires
            f >= 0,
            k > 0,
    ;
    lemma_twelfth_power_grows(f * k, t);
    lemma_twelfth_power_grows(t + 1, (f + 1) * k);
}

/// Note 117 lies four octaves above note 69.
pub proof fn lemma_top_a()
    ensures
        TOP_A == 16 * CONCERT_A,
        millihertz(117) == TOP_A,
{
    reveal_with_fuel(halved, 2);
}

/// A note an octave lower sounds at half the frequency.
pub proof fn lemma_octave_halves(note: int)
    requires
        12 <= note <= DATA_MAX,
    ensures
        millihertz(note - 12) == millihertz(note) / 2,
{
    assert(semitone_of(note - 12) == semitone_of(note));
    assert(octaves_down(note - 12) == octaves_down(note) + 1);
    assert(octaves_down(note) >= 0);
}

/// Note 69 sounds at 440 Hz and note 57 at 220 Hz.
pub proof fn lemma_concert_pitch()
    ensures
        millihertz(69) == 440_000,
        millihertz(57) == 220_000,
{
    reveal_with_fuel(halved, 6);
    assert(semitone_of(69) == 1 && octaves_down(69) == 4);
    assert(semitone_of(57) == 1 && octaves_down(57) == 5);
}

/// The frequency of note `116 + semitone`, in millihertz.
fn top_octave_entry(semitone: u8) -> (f: u64)
    requires
        semitone < 12,
    ensures
        f == top_octave(semitone as int),
        f <= 12_543_853,
{
    if semitone == 0 {
        6_644_875
    } else if semitone == 1 {
        7_040_000
    } else if semitone == 2 {
        7_458_620
    } else if semitone == 3 {
        7_902_132
    } else if semitone == 4 {
        8_372_018
    } else if semitone == 5 {
        8_869_844
    } else if semitone == 6 {
        9_397_272
    } else if semitone == 7 {
        9_956_063
    } else if semitone == 8 {
        10_548_081
    } else if semitone == 9 {
        11_175_303
    } else if semitone == 10 {
        11_839_821
    } else {
        12_543_853
    }
}

/// The frequency of a note, in millihertz, rounded down.
pub fn note_millihertz(note: u8) -> (f: u64)
    requires
        note <= DATA_MAX,
    ensures
        f == millihertz(note as int),
        note == 69 ==> f == CONCERT_A,
        note == 57 ==> f == CONCERT_A / 2,
        0 < f <= 12_543_853,
{
    proof {
        lemma_concert_pitch();
    }
    let semitone: u8 = (note + 4) % 12;
    let octaves: u8 = (TOP_OCTAVE + semitone - note) / 12;
    let mut f: u64 = top_octave_entry(semitone);
    let mut i: u8 = 0;
    proof {
        reveal_with_fuel(two_to, 12);
    }
    while i < octaves
        invariant
            i <= octaves <= 10,
            f == halved(top_octave(semitone as int), i as nat),
            f * two_to(i as nat) > top_octave(semitone as int) - two_to(i as nat),
            f <= 12_543_853,
            0 < two_to(i as nat) <= 1024,
        decreases octaves - i,
    {
        proof {
            reveal_with_fuel(two_to, 12);
            let p = two_to(i as nat);
            let t = top_octave(semitone as int);
            assert((f / 2) * (2 * p) > t - 2 * p) by (nonlinear_arith)
                requires
                    f * p > t - p,
                    p > 0,
                    f >= 0,
            ;
        }
        f = f / 2;
        i += 1;
    }
    proof {
        let p = two_to(i as nat);
        assert(f > 0) by (nonlinear_arith)
            requires
                f * p > 6_000_000 - p,
                0 < p <= 1024,
                f >= 0,
        ;
    }
    f
}

} // verus!
