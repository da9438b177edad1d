//! The string: a delay line of fixed length whose output is fed back,
//! attenuated, into its input.

use vstd::prelude::*;
use crate::fixed::{lemma_scaled_bounds, magnitude, scale, scaled, ONE};

verus! {

/// The largest denominator of a feedback gain.
pub const GAIN_LIMIT: u64 = 65536;

/// Why a string could not be built.
#[derive(Clone, Copy, Debug, PartialEq, Eq, Structural)]
pub enum ConfigError {
    /// The delay line would hold no sample.
    ZeroLength,
    /// The feedback gain does not lie strictly between zero and one, or its
    /// denominator is too large.
    GainOutOfRange,
    /// A physical quantity is zero where it may not be, or beyond what the
    /// arithmetic can hold.
    OutOfRange,
}

/// A feedback gain `num / den`.
#[derive(Clone, Copy, Debug, PartialEq, Eq, Structural)]
pub struct Gain {
    pub num: u64,
    pub den: u64,
}

impl Gain {
    /// Whether the gain lies strictly between zero and one.
    pub open spec fn wf(self) -> bool {
        0 < self.num < self.den <= GAIN_LIMIT
    }

    /// The largest magnitude that a sample in the line can reach while the
    /// excitation stays within full level.
    pub open spec fn peak(self) -> int {
        ONE as int * self.den as int
    }
}

/// One sample of the line: the oldest sample leaves, and the excitation plus
/// the attenuated oldest sample enters.
pub open spec fn shifted(line: Seq<int>, gain: Gain, excitation: int) -> Seq<int>
    recommends
        line.len() > 0,
{
    line.drop_first().push(excitation + scaled(line[0], gain.num as int, gain.den as int))
}

/// The line after `ticks` samples without excitation.
pub open spec fn rung(line: Seq<int>, gain: Gain, ticks: nat) -> Seq<int>
    decreases ticks,
{
    if ticks == 0 {
        line
    } else {
        shifted(rung(line, gain, (ticks - 1) as nat), gain, 0)
    }
}

/// A sample after `trips` passes through the feedback gain.
pub open spec fn attenuated(x: int, gain: Gain, trips: nat) -> int
    decreases trips,
{
    if trips == 0 {
        x
    } else {
        scaled(attenuated(x, gain, (trips - 1) as nat), gain.num as int, gain.den as int)
    }
}

/// `base` to the power `exp`.
pub open spec fn power(base: int, exp: nat) -> int
    decreases exp,
{
    if exp == 0 {
        1
    } else {
        base * power(base, (exp - 1) as nat)
    }
}

/// A string at one instant.
pub struct Waveguide {
    slots: Vec<i64>,
    oldest: usize,
    gain: Gain,
}

impl Waveguide {
    /// Whether the string is one that [`Waveguide::new`] and
    /// [`Waveguide::tick`] can produce.
    pub closed spec fn wf(&self) -> bool {
        &&& self.slots.len() > 0
        &&& self.oldest < self.slots.len()
        &&& self.gain.wf()
        &&& forall|i: int|
            0 <= i < self.slots.len() ==> magnitude(#[trigger] self.slots[i] as int)
                <= self.gain.peak()
    }

    /// The samples in the line, the oldest first.
    pub closed spec fn view(&self) -> Seq<int> {
        Seq::new(
            self.slots.len() as nat,
            |i: int|
                if self.oldest + i < self.slots.len() {
                    self.slots[self.oldest + i] as int
                } else {
                    self.slots[self.oldest + i - self.slots.len()] as int
                },
        )
    }

    /// The feedback gain.
    pub closed spec fn gain_spec(&self) -> Gain {
        self.gain
    }

    /// A well-formed string holds at least one sample, none of them beyond
    /// the peak of its gain.
    pub proof fn lemma_wf(&self)
        requires
            self.wf(),
        ensures
            self@.len() > 0,
            self.gain_spec().wf(),
            forall|i: int| 0 <= i < self@.len() ==> magnitude(#[trigger] self@[i]) <= self.gain_spec().peak(),
    {
    }

    /// A silent string of `length` samples. A string of no length and a gain
    /// outside the open range from zero to one are refused.
    pub fn new(length: usize, gain: Gain) -> (made: Result<Waveguide, ConfigError>)
        ensures
            length == 0 ==> made == Err::<Waveguide, ConfigError>(ConfigError::ZeroLength),
            length > 0 && !gain.wf() ==> made == Err::<Waveguide, ConfigError>(
                ConfigError::GainOutOfRange,
            ),
            length > 0 && gain.wf() ==> made is Ok,
            made matches Ok(w) ==> {
                &&& w.wf()
                &&& w.gain_spec() == gain
                &&& w@ == Seq::new(length as nat, |i: int| 0int)
            },
    {
        if length == 0 {
            return Err(ConfigError::ZeroLength);
        }
        if !(0 < gain.num && gain.num < gain.den && gain.den <= GAIN_LIMIT) {
            return Err(ConfigError::GainOutOfRange);
        }
        let mut slots: Vec<i64> = Vec::new();
        let mut i: usize = 0;
        while i < length
            invariant
                i <= length,
                slots.len() == i,
                forall|j: int| 0 <= j < i ==> slots[j] == 0,
            decreases length - i,
        {
            slots.push(0);
            i += 1;
        }
        let w = Waveguide { slots, oldest: 0, gain };
        assert(w@ =~= Seq::new(length as nat, |i: int| 0int));
        Ok(w)
    }

    /// The number of samples in the line.
    pub fn len(&self) -> (n: usize)
        requires
            self.wf(),
        ensures
            n == self@.len(),
            n > 0,
    {
        self.slots.len()
    }

    /// The feedback gain.
    pub fn gain(&self) -> (g: Gain)
        ensures
            g == self.gain_spec(),
    {
        self.gain
    }

    /// Advances the string by one sample. The oldest sample in the line is
    /// returned; the excitation plus that sample times the gain takes the
    /// place of the newest.
    pub fn tick(&mut self, excitation: i64) -> (tap: i64)
        requires
            old(self).wf(),
            -ONE <= excitation <= ONE,
        ensures
            final(self).wf(),
            final(self).gain_spec() == old(self).gain_spec(),
            tap == old(self)@[0],
            final(self)@ == shifted(old(self)@, old(self).gain_spec(), excitation as int),
            final(self)@.len() == old(self)@.len(),
    {
        let n = self.slots.len();
        let at = self.oldest;
        let tap = self.slots[at];
        proof {
            lemma_scaled_bounds(tap as int, self.gain.num as int, self.gain.den as int);
            lemma_peak_holds(self.gain, tap as int, excitation as int);
            let m = magnitude(tap as int);
            assert(m * self.gain.num <= 0x1_0000_0000 * 0x1_0000) by (nonlinear_arith)
                requires
                    0 <= m <= ONE * self.gain.den,
                    self.gain.num < self.gain.den <= 0x1_0000,
                    ONE == 0x1_0000,
            ;
        }
        let fed = scale(tap, self.gain.num, self.gain.den);
        self.slots[at] = excitation + fed;
        self.oldest = if at + 1 == n {
            0
        } else {
            at + 1
        };
        assert(self@ =~= shifted(old(self)@, old(self).gain_spec(), excitation as int));
        tap
    }
}

/// A sample within the peak, attenuated and excited within full level, stays
/// within the peak.
pub proof fn lemma_peak_holds(gain: Gain, x: int, excitation: int)
    requires
        gain.wf(),
        magnitude(x) <= gain.peak(),
        magnitude(excitation) <= ONE,
    ensures
        magnitude(excitation + scaled(x, gain.num as int, gain.den as int)) <= gain.peak(),
{
    let num = gain.num as int;
    let den = gain.den as int;
    let s = magnitude(scaled(x, num, den));
    crate::fixed::lemma_scaled_limit(x, num, den, gain.peak());
    assert(s <= ONE * num) by (nonlinear_arith)
        requires
            s * den <= (ONE * den) * num,
            0 < den,
            0 <= s,
    ;
    assert(ONE + ONE * num <= ONE * den) by (nonlinear_arith)
        requires
            num + 1 <= den,
    ;
}

/// Every sample of `line` after `trips` passes through the feedback gain.
pub open spec fn decayed(line: Seq<int>, gain: Gain, trips: nat) -> Seq<int> {
    Seq::new(line.len(), |i: int| attenuated(line[i], gain, trips))
}

/// Ringing for `a + b` samples is ringing for `a` samples and then for `b`.
pub proof fn lemma_rung_split(line: Seq<int>, gain: Gain, a: nat, b: nat)
    ensures
        rung(line, gain, a + b) == rung(rung(line, gain, a), gain, b),
    decreases b,
{
    if b > 0 {
        lemma_rung_split(line, gain, a, (b - 1) as nat);
        assert((a + b - 1) as nat == a + (b - 1) as nat);
    }
}

/// Ringing keeps the length of the line.
pub proof fn lemma_rung_len(line: Seq<int>, gain: Gain, ticks: nat)
    requires
        line.len() > 0,
    ensures
        rung(line, gain, ticks).len() == line.len(),
    decreases ticks,
{
    if ticks > 0 {
        lemma_rung_len(line, gain, (ticks - 1) as nat);
    }
}

/// Part of the way through a round trip, the samples that have not yet left
/// the line stand in front, and behind them stand the attenuated copies of
/// those that have.
pub proof fn lemma_rung_partial(line: Seq<int>, gain: Gain, ticks: nat)
    requires
        line.len() > 0,
        ticks <= line.len(),
    ensures
        rung(line, gain, ticks) == line.skip(ticks as int) + decayed(line, gain, 1).take(
            ticks as int,
        ),
    decreases ticks,
{
    let once = decayed(line, gain, 1);
    if ticks == 0 {
        assert(line.skip(0) + once.take(0) =~= line);
    } else {
        let before = (ticks - 1) as nat;
        lemma_rung_partial(line, gain, before);
        let prev = rung(line, gain, before);
        assert(prev[0] == line[before as int]);
        assert(attenuated(line[before as int], gain, 0) == line[before as int]);
        assert(once[before as int] == scaled(
            line[before as int],
            gain.num as int,
            gain.den as int,
        ));
        assert(shifted(prev, gain, 0) =~= line.skip(ticks as int) + once.take(ticks as int));
    }
}

/// One round trip without excitation attenuates every sample in the line
/// once and leaves it in its place.
pub proof fn lemma_round_trip(line: Seq<int>, gain: Gain)
    requires
        line.len() > 0,
    ensures
        rung(line, gain, line.len()) == decayed(line, gain, 1),
{
    lemma_rung_partial(line, gain, line.len());
    let once = decayed(line, gain, 1);
    assert(line.skip(line.len() as int) + once.take(line.len() as int) =~= once);
}

/// After `trips` round trips without excitation, every sample in the line
/// has been attenuated `trips` times.
pub proof fn lemma_free_decay(line: Seq<int>, gain: Gain, trips: nat)
    requires
        line.len() > 0,
    ensures
        rung(line, gain, trips * line.len()) == decayed(line, gain, trips),
    decreases trips,
{
    if trips == 0 {
        assert(0 * line.len() == 0);
        assert(decayed(line, gain, 0) =~= line);
    } else {
        let before = (trips - 1) as nat;
        lemma_free_decay(line, gain, before);
        assert(trips * line.len() == before * line.len() + line.len()) by (nonlinear_arith)
            requires
                trips == before + 1,
        ;
        lemma_rung_split(line, gain, before * line.len(), line.len());
        let mid = decayed(line, gain, before);
        lemma_round_trip(mid, gain);
        assert(decayed(mid, gain, 1) =~= decayed(line, gain, trips)) by {
            assert forall|i: int| 0 <= i < line.len() implies decayed(mid, gain, 1)[i] == decayed(
                line,
                gain,
                trips,
            )[i] by {
                assert(attenuated(mid[i], gain, 0) == mid[i]);
            }
        }
    }
}

/// The sample that leaves a freely ringing line `trips` round trips and
/// `offset` samples after the excitation stopped is the sample that stood at
/// `offset`, attenuated `trips` times.
pub proof fn lemma_free_output(line: Seq<int>, gain: Gain, trips: nat, offset: nat)
    requires
        line.len() > 0,
        offset < line.len(),
    ensures
        rung(line, gain, trips * line.len() + offset)[0] == attenuated(
            line[offset as int],
            gain,
            trips,
        ),
{
    lemma_free_decay(line, gain, trips);
    lemma_rung_split(line, gain, trips * line.len(), offset);
    let mid = decayed(line, gain, trips);
    lemma_rung_partial(mid, gain, offset);
}

/// A sample that has passed `trips` times through the gain `g` is no larger
/// than the sample times `g` to the power `trips`, and has kept its sign.
pub proof fn lemma_geometric_decay(x: int, gain: Gain, trips: nat)
    requires
        gain.wf(),
    ensures
        magnitude(attenuated(x, gain, trips)) * power(gain.den as int, trips) <= magnitude(x)
            * power(gain.num as int, trips),
        magnitude(attenuated(x, gain, trips)) <= magnitude(x),
        power(gain.den as int, trips) > 0,
        power(gain.num as int, trips) > 0,
        x >= 0 ==> attenuated(x, gain, trips) >= 0,
        x <= 0 ==> attenuated(x, gain, trips) <= 0,
    decreases trips,
{
    let num = gain.num as int;
    let den = gain.den as int;
    if trips > 0 {
        let before = (trips - 1) as nat;
        lemma_geometric_decay(x, gain, before);
        let y = attenuated(x, gain, before);
        lemma_scaled_bounds(y, num, den);
        let a = magnitude(scaled(y, num, den));
        let b = magnitude(y);
        let dp = power(den, before);
        let np = power(num, before);
        let m = magnitude(x);
        assert(a * (den * dp) <= m * (num * np)) by (nonlinear_arith)
            requires
                a * den <= b * num,
                b * dp <= m * np,
                0 <= a,
                0 <= b,
                0 < dp,
                0 < np,
                0 < num,
                0 < den,
        ;
        assert(den * dp > 0 && num * np > 0) by (nonlinear_arith)
            requires
                0 < dp,
                0 < np,
                0 < num,
                0 < den,
        ;
    }
}

/// Rounding costs less than one unit per pass, so a sample that has passed
/// `trips` times through the gain `g` falls short of the sample times `g` to
/// the power `trips` by less than `1 / (1 - g)` units.
pub proof fn lemma_decay_error(x: int, gain: Gain, trips: nat)
    requires
        gain.wf(),
    ensures
        (magnitude(attenuated(x, gain, trips)) * (gain.den - gain.num) + gain.den) * power(
            gain.den as int,
            trips,
        ) >= magnitude(x) * (gain.den - gain.num) * power(gain.num as int, trips),
    decreases trips,
{
    let num = gain.num as int;
    let den = gain.den as int;
    let gap = den - num;
    lemma_geometric_decay(x, gain, trips);
    let m = magnitude(x);
    if trips == 0 {
        assert((m * gap + den) * 1 >= m * gap * 1) by (nonlinear_arith)
            requires
                den > 0,
        ;
    } else {
        let before = (trips - 1) as nat;
        lemma_decay_error(x, gain, before);
        lemma_geometric_decay(x, gain, before);
        let y = attenuated(x, gain, before);
        let b = magnitude(y);
        let a = magnitude(scaled(y, num, den));
        assert(a == b * num / den);
        assert(a * den + den > b * num) by (nonlinear_arith)
            requires
                a == b * num / den,
                0 < den,
                0 <= b * num,
        ;
        let dp = power(den, before);
        let np = power(num, before);
        assert((a * gap + den) * (den * dp) >= m * gap * (num * np)) by (nonlinear_arith)
            requires
                (b * gap + den) * dp >= m * gap * np,
                a * den + den > b * num,
                gap == den - num,
                0 < num < den,
                0 < dp,
                0 < np,
                0 <= a,
                0 <= b,
                0 <= m,
        ;
    }
}

} // verus!
