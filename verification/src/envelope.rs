//! The envelope generator: an attack / decay / sustain / release state
//! machine that is advanced once per sample.

use vstd::prelude::*;
use crate::fixed::ONE;

verus! {

/// The phase that an envelope is in.
#[derive(Clone, Copy, Debug, PartialEq, Eq, Structural)]
pub enum Phase {
    Idle,
    Attack,
    Decay,
    Sustain,
    Release,
}

/// The shape of an envelope. Durations are counted in samples; the sustain
/// level is a fixed-point fraction of full level.
#[derive(Clone, Copy, Debug, PartialEq, Eq, Structural)]
pub struct Shape {
    pub attack: u32,
    pub decay: u32,
    pub sustain: u64,
    pub release: u32,
}

/// An envelope at one instant.
#[derive(Clone, Copy, Debug, PartialEq, Eq, Structural)]
pub struct Envelope {
    /// The phase.
    pub phase: Phase,
    /// The output level, from 0 to `ONE`.
    pub level: u64,
    /// The level at which the phase was entered.
    pub origin: u64,
    /// The samples spent in the phase.
    pub elapsed: u32,
}

/// The point on the straight line from `from` (at 0) to `to` (at `duration`)
/// that lies at `elapsed`, rounded toward `from`.
pub open spec fn ramp(from: int, to: int, elapsed: int, duration: int) -> int {
    if to >= from {
        from + (to - from) * elapsed / duration
    } else {
        from - (from - to) * elapsed / duration
    }
}

/// A ramp stays between its two ends, and reaches `to` at `duration`.
pub proof fn lemma_ramp_bounds(from: int, to: int, elapsed: int, duration: int)
    requires
        0 <= elapsed <= duration,
        0 < duration,
    ensures
        from <= to ==> from <= ramp(from, to, elapsed, duration) <= to,
        to <= from ==> to <= ramp(from, to, elapsed, duration) <= from,
        elapsed == duration ==> ramp(from, to, elapsed, duration) == to,
        elapsed == 0 ==> ramp(from, to, elapsed, duration) == from,
{
    let span = if to >= from {
        to - from
    } else {
        from - to
    };
    assert(0 <= span * elapsed / duration <= span) by (nonlinear_arith)
        requires
            0 <= span,
            0 <= elapsed <= duration,
            0 < duration,
    ;
    assert(span * duration / duration == span) by (nonlinear_arith)
        requires
            0 < duration,
    ;
    assert(span * 0 / duration == 0) by (nonlinear_arith)
        requires
            0 < duration,
    ;
}

impl Shape {
    /// Whether the sustain level is a fraction of full level.
    pub open spec fn wf(self) -> bool {
        self.sustain <= ONE
    }
}

impl Envelope {
    /// Whether the envelope is a state that `shape` can reach.
    pub open spec fn wf(self, shape: Shape) -> bool {
        &&& self.level <= ONE
        &&& self.origin <= ONE
        &&& (self.phase == Phase::Idle ==> self.level == 0)
        &&& (self.phase == Phase::Attack ==> self.elapsed < shape.attack || self.elapsed == 0)
        &&& (self.phase == Phase::Decay ==> self.elapsed < shape.decay || self.elapsed == 0)
        &&& (self.phase == Phase::Release ==> self.elapsed < shape.release || self.elapsed == 0)
    }

    /// The silent envelope.
    pub open spec fn idle() -> Envelope {
        Envelope { phase: Phase::Idle, level: 0, origin: 0, elapsed: 0 }
    }

    /// The envelope once its gate has been looked at. An open gate sends an
    /// idle or releasing envelope into its attack, from the level it has. A
    /// closed gate sends an attacking, decaying or sustaining envelope into
    /// its release, from the level it has.
    pub open spec fn gated(self, open: bool) -> Envelope {
        if open && (self.phase == Phase::Idle || self.phase == Phase::Release) {
            Envelope { phase: Phase::Attack, level: self.level, origin: self.level, elapsed: 0 }
        } else if !open && (self.phase == Phase::Attack || self.phase == Phase::Decay
            || self.phase == Phase::Sustain) {
            Envelope { phase: Phase::Release, level: self.level, origin: self.level, elapsed: 0 }
        } else {
            self
        }
    }

    /// The envelope one sample later, its gate left aside.
    ///
    /// The attack rises in a straight line to full level, the decay falls in
    /// a straight line to the sustain level, the release falls in a straight
    /// line to silence. A phase whose time is up hands over to the next one.
    pub open spec fn advanced(self, shape: Shape) -> Envelope {
        let t = self.elapsed as int + 1;
        match self.phase {
            Phase::Idle => self,
            Phase::Sustain => self,
            Phase::Attack => if t >= shape.attack {
                Envelope { phase: Phase::Decay, level: ONE, origin: ONE, elapsed: 0 }
            } else {
                Envelope {
                    level: ramp(self.origin as int, ONE as int, t, shape.attack as int) as u64,
                    elapsed: t as u32,
                    ..self
                }
            },
            Phase::Decay => if t >= shape.decay {
                Envelope {
                    phase: Phase::Sustain,
                    level: shape.sustain,
                    origin: shape.sustain,
                    elapsed: 0,
                }
            } else {
                Envelope {
                    level: ramp(ONE as int, shape.sustain as int, t, shape.decay as int) as u64,
                    elapsed: t as u32,
                    ..self
                }
            },
            Phase::Release => if t >= shape.release {
                Envelope::idle()
            } else {
                Envelope {
                    level: ramp(self.origin as int, 0, t, shape.release as int) as u64,
                    elapsed: t as u32,
                    ..self
                }
            },
        }
    }

    /// The envelope one sample later.
    pub open spec fn stepped(self, shape: Shape, open: bool) -> Envelope {
        self.gated(open).advanced(shape)
    }

    /// The envelope after `samples` samples with its gate held as it is.
    pub open spec fn held(self, shape: Shape, open: bool, samples: nat) -> Envelope
        decreases samples,
    {
        if samples == 0 {
            self
        } else {
            self.held(shape, open, (samples - 1) as nat).stepped(shape, open)
        }
    }

    /// A silent envelope.
    pub fn new() -> (e: Envelope)
        ensures
            e == Envelope::idle(),
            forall|shape: Shape| e.wf(shape),
    {
        Envelope { phase: Phase::Idle, level: 0, origin: 0, elapsed: 0 }
    }

    /// Advances the envelope by one sample and returns its level.
    pub fn tick(&mut self, shape: &Shape, open: bool) -> (level: u64)
        requires
            old(self).wf(*shape),
            shape.wf(),
        ensures
            *final(self) == old(self).stepped(*shape, open),
            final(self).wf(*shape),
            level == final(self).level,
            level <= ONE,
    {
        if open && (self.phase == Phase::Idle || self.phase == Phase::Release) {
            self.phase = Phase::Attack;
            self.origin = self.level;
            self.elapsed = 0;
        } else if !open && (self.phase == Phase::Attack || self.phase == Phase::Decay
            || self.phase == Phase::Sustain) {
            self.phase = Phase::Release;
            self.origin = self.level;
            self.elapsed = 0;
        }
        assert(*self == old(self).gated(open));
        let t: u64 = self.elapsed as u64 + 1;
        match self.phase {
            Phase::Idle => {},
            Phase::Sustain => {},
            Phase::Attack => {
                if t >= shape.attack as u64 {
                    self.phase = Phase::Decay;
                    self.level = ONE;
                    self.origin = ONE;
                    self.elapsed = 0;
                } else {
                    proof {
                        lemma_ramp_bounds(
                            self.origin as int,
                            ONE as int,
                            t as int,
                            shape.attack as int,
                        );
                    }
                    let span: u64 = ONE - self.origin;
                    assert(span * t <= 65536 * 0x1_0000_0000) by (nonlinear_arith)
                        requires
                            span <= 65536,
                            t <= 0x1_0000_0000,
                    ;
                    self.level = self.origin + span * t / (shape.attack as u64);
                    self.elapsed = t as u32;
                }
            },
            Phase::Decay => {
                if t >= shape.decay as u64 {
                    self.phase = Phase::Sustain;
                    self.level = shape.sustain;
                    self.origin = shape.sustain;
                    self.elapsed = 0;
                } else {
                    proof {
                        lemma_ramp_bounds(
                            ONE as int,
                            shape.sustain as int,
                            t as int,
                            shape.decay as int,
                        );
                    }
                    let span: u64 = ONE - shape.sustain;
                    assert(span * t <= 65536 * 0x1_0000_0000) by (nonlinear_arith)
                        requires
                            span <= 65536,
                            t <= 0x1_0000_0000,
                    ;
                    self.level = ONE - span * t / (shape.decay as u64);
                    self.elapsed = t as u32;
                }
            },
            Phase::Release => {
                if t >= shape.release as u64 {
                    self.phase = Phase::Idle;
                    self.level = 0;
                    self.origin = 0;
                    self.elapsed = 0;
                } else {
                    proof {
                        lemma_ramp_bounds(self.origin as int, 0, t as int, shape.release as int);
                    }
                    let span: u64 = self.origin;
                    assert(span * t <= 65536 * 0x1_0000_0000) by (nonlinear_arith)
                        requires
                            span <= 65536,
                            t <= 0x1_0000_0000,
                    ;
                    self.level = self.origin - span * t / (shape.release as u64);
                    self.elapsed = t as u32;
                }
            },
        }
        self.level
    }
}

/// Every step keeps an envelope well formed, so its level never leaves the
/// range from silence to full level.
pub proof fn lemma_step_keeps_wf(e: Envelope, shape: Shape, open: bool)
    requires
        e.wf(shape),
        shape.wf(),
    ensures
        e.stepped(shape, open).wf(shape),
{
    let g = e.gated(open);
    let t = g.elapsed as int + 1;
    if g.phase == Phase::Attack && t < shape.attack {
        lemma_ramp_bounds(g.origin as int, ONE as int, t, shape.attack as int);
    }
    if g.phase == Phase::Decay && t < shape.decay {
        lemma_ramp_bounds(ONE as int, shape.sustain as int, t, shape.decay as int);
    }
    if g.phase == Phase::Release && t < shape.release {
        lemma_ramp_bounds(g.origin as int, 0, t, shape.release as int);
    }
}

/// While its gate stays open, an envelope that starts from rest is in its
/// attack for all but the last sample of the attack time.
pub proof fn lemma_attack_in_progress(shape: Shape, samples: nat)
    requires
        shape.wf(),
        0 < samples < shape.attack,
    ensures
        ({
            let e = Envelope::idle().held(shape, true, samples);
            &&& e.phase == Phase::Attack
            &&& e.elapsed == samples
            &&& e.origin == 0
            &&& e.level == ramp(0, ONE as int, samples as int, shape.attack as int)
        }),
    decreases samples,
{
    lemma_ramp_bounds(0, ONE as int, samples as int, shape.attack as int);
    if samples > 1 {
        lemma_attack_in_progress(shape, (samples - 1) as nat);
    } else {
        assert(Envelope::idle().held(shape, true, 0) == Envelope::idle());
    }
}

/// Once its gate has been open for the attack time (for one sample, if the
/// attack takes no time), an envelope that started from rest is at full
/// level and enters its decay.
pub proof fn lemma_attack_reaches_full_level(shape: Shape)
    requires
        shape.wf(),
    ensures
        ({
            let samples = if shape.attack == 0 {
                1nat
            } else {
                shape.attack as nat
            };
            let e = Envelope::idle().held(shape, true, samples);
            e.level == ONE && e.phase == Phase::Decay
        }),
{
    let samples = if shape.attack == 0 {
        1nat
    } else {
        shape.attack as nat
    };
    if samples > 1 {
        lemma_attack_in_progress(shape, (samples - 1) as nat);
    } else {
        assert(Envelope::idle().held(shape, true, 0) == Envelope::idle());
    }
}

/// A closed gate sends a sounding envelope into its release at once.
pub proof fn lemma_closed_gate_releases(e: Envelope, shape: Shape)
    requires
        e.phase == Phase::Attack || e.phase == Phase::Decay || e.phase == Phase::Sustain,
    ensures
        e.gated(false).phase == Phase::Release,
        e.gated(false).origin == e.level,
        e.stepped(shape, false).phase == Phase::Release || e.stepped(shape, false)
            == Envelope::idle(),
        e.wf(shape) && shape.wf() ==> e.stepped(shape, false).level <= e.level,
{
    let g = e.gated(false);
    if e.wf(shape) && shape.wf() && 1 < shape.release {
        lemma_ramp_bounds(g.origin as int, 0, 1, shape.release as int);
    }
}

/// An open gate sends a releasing or idle envelope back into its attack from
/// the level it has, without a drop to silence in between.
pub proof fn lemma_retrigger_keeps_level(e: Envelope, shape: Shape)
    requires
        e.wf(shape),
        shape.wf(),
        e.phase == Phase::Release || e.phase == Phase::Idle,
    ensures
        e.gated(true).phase == Phase::Attack,
        e.gated(true).origin == e.level,
        e.stepped(shape, true).level >= e.level,
{
    let g = e.gated(true);
    if 1 < shape.attack {
        lemma_ramp_bounds(g.origin as int, ONE as int, 1, shape.attack as int);
    }
}

/// While its gate stays closed, an envelope that has just entered its
/// release falls in a straight line from the level it had.
pub proof fn lemma_release_in_progress(e: Envelope, shape: Shape, samples: nat)
    requires
        e.wf(shape),
        shape.wf(),
        e.phase == Phase::Attack || e.phase == Phase::Decay || e.phase == Phase::Sustain,
        0 < samples < shape.release,
    ensures
        ({
            let r = e.held(shape, false, samples);
            &&& r.phase == Phase::Release
            &&& r.elapsed == samples
            &&& r.origin == e.level
            &&& r.level == ramp(e.level as int, 0, samples as int, shape.release as int)
            &&& r.level <= e.level
        }),
    decreases samples,
{
    lemma_ramp_bounds(e.level as int, 0, samples as int, shape.release as int);
    if samples > 1 {
        lemma_release_in_progress(e, shape, (samples - 1) as nat);
    } else {
        assert(e.held(shape, false, 0) == e);
    }
}

/// Once its gate has been closed for the release time (for one sample, if
/// the release takes no time), a sounding envelope is silent and idle, and
/// stays so for as long as its gate stays closed.
pub proof fn lemma_release_reaches_silence(e: Envelope, shape: Shape, longer: nat)
    requires
        e.wf(shape),
        shape.wf(),
        e.phase == Phase::Attack || e.phase == Phase::Decay || e.phase == Phase::Sustain,
    ensures
        ({
            let samples = if shape.release == 0 {
                1nat
            } else {
                shape.release as nat
            };
            e.held(shape, false, samples + longer) == Envelope::idle()
        }),
    decreases longer,
{
    let samples = if shape.release == 0 {
        1nat
    } else {
        shape.release as nat
    };
    if longer == 0 {
        if samples > 1 {
            lemma_release_in_progress(e, shape, (samples - 1) as nat);
        } else {
            assert(e.held(shape, false, 0) == e);
        }
    } else {
        lemma_release_reaches_silence(e, shape, (longer - 1) as nat);
        assert((samples + longer - 1) as nat == samples + (longer - 1) as nat);
    }
}

/// While its gate stays open, an envelope that has just entered its decay
/// falls in a straight line from full level toward the sustain level.
pub proof fn lemma_decay_in_progress(shape: Shape, samples: nat)
    requires
        shape.wf(),
        samples < shape.decay,
    ensures
        ({
            let start = Envelope { phase: Phase::Decay, level: ONE, origin: ONE, elapsed: 0 };
            let d = start.held(shape, true, samples);
            &&& d.phase == Phase::Decay
            &&& d.elapsed == samples
            &&& d.level == ramp(ONE as int, shape.sustain as int, samples as int, shape.decay as int)
            &&& shape.sustain <= d.level <= ONE
        }),
    decreases samples,
{
    let start = Envelope { phase: Phase::Decay, level: ONE, origin: ONE, elapsed: 0 };
    lemma_ramp_bounds(ONE as int, shape.sustain as int, samples as int, shape.decay as int);
    if samples > 0 {
        lemma_decay_in_progress(shape, (samples - 1) as nat);
    } else {
        assert(start.held(shape, true, 0) == start);
    }
}

/// Once the decay time is up (after one sample, if the decay takes no
/// time), the envelope holds the sustain level for as long as its gate stays
/// open.
pub proof fn lemma_decay_reaches_sustain(shape: Shape, longer: nat)
    requires
        shape.wf(),
    ensures
        ({
            let start = Envelope { phase: Phase::Decay, level: ONE, origin: ONE, elapsed: 0 };
            let samples = if shape.decay == 0 {
                1nat
            } else {
                shape.decay as nat
            };
            let s = start.held(shape, true, samples + longer);
            s.phase == Phase::Sustain && s.level == shape.sustain
        }),
    decreases longer,
{
    let start = Envelope { phase: Phase::Decay, level: ONE, origin: ONE, elapsed: 0 };
    let samples = if shape.decay == 0 {
        1nat
    } else {
        shape.decay as nat
    };
    if longer == 0 {
        if samples > 1 {
            lemma_decay_in_progress(shape, (samples - 1) as nat);
        } else {
            assert(start.held(shape, true, 0) == start);
        }
    } else {
        lemma_decay_reaches_sustain(shape, (longer - 1) as nat);
        assert((samples + longer - 1) as nat == samples + (longer - 1) as nat);
    }
}

} // verus!
