//! The render loop: the envelope, the string and the harmonic bank composed
//! into one voice that is advanced a sample at a time, and the writing of
//! its output into interleaved frames.

use vstd::prelude::*;
use vstd::arithmetic::div_mod::lemma_fundamental_div_mod_converse;
use crate::envelope::{Envelope, Shape};
use crate::fixed::{magnitude, ONE, SAMPLE_LIMIT};
use crate::harmonics::{all_stepped, mixed, Coefficients, HarmonicBank, Resonator};
use crate::store::ParameterStore;
use crate::string::{delay_length, lemma_nearest_unique, StringSpec, RATE_LIMIT};
use crate::waveguide::{shifted, ConfigError, Gain, Waveguide};

verus! {

/// The state of a voice: its envelope, the samples in its delay line, the
/// oldest first, and its filters.
pub struct Voice {
    pub envelope: Envelope,
    pub line: Seq<int>,
    pub filters: Seq<Resonator>,
}

/// What does not change while a voice sounds.
pub struct Setup {
    pub shape: Shape,
    pub gain: Gain,
}

/// The pluck: the envelope level scaled by the volume.
pub open spec fn excitation(level: int, volume: int) -> int {
    level * volume / (ONE as int)
}

/// The sample that a voice puts out next: the sample that leaves the delay
/// line, plus what the filters make of it.
pub open spec fn voice_output(v: Voice) -> int {
    v.line[0] + mixed(v.filters, v.line[0], 5)
}

/// The voice one sample later. The envelope steps first; its new level,
/// scaled by the volume, excites the string; the filters are fed the sample
/// that left the delay line.
pub open spec fn voice_stepped(v: Voice, setup: Setup, open: bool, volume: int) -> Voice {
    let envelope = v.envelope.stepped(setup.shape, open);
    Voice {
        envelope,
        line: shifted(v.line, setup.gain, excitation(envelope.level as int, volume)),
        filters: all_stepped(v.filters, v.line[0]),
    }
}

/// The voice after `samples` samples under unchanged controls.
pub open spec fn voice_after(v: Voice, setup: Setup, open: bool, volume: int, samples: nat) -> Voice
    decreases samples,
{
    if samples == 0 {
        v
    } else {
        voice_stepped(voice_after(v, setup, open, volume, (samples - 1) as nat), setup, open, volume)
    }
}

/// The sample that a voice puts out `index` samples from now under unchanged
/// controls.
pub open spec fn sample_at(v: Voice, setup: Setup, open: bool, volume: int, index: nat) -> int {
    voice_output(voice_after(v, setup, open, volume, index))
}

/// The pluck never exceeds full level.
pub proof fn lemma_excitation_bound(level: int, volume: int)
    requires
        0 <= level <= ONE,
        0 <= volume <= ONE,
    ensures
        0 <= excitation(level, volume) <= ONE,
        excitation(level, volume) <= level,
        volume == ONE ==> excitation(level, volume) == level,
        volume == 0 ==> excitation(level, volume) == 0,
{
    assert(0 <= level * volume <= level * 65536) by (nonlinear_arith)
        requires
            0 <= level,
            0 <= volume <= 65536,
    ;
    assert(0 * level == 0);
}

/// The envelope of a voice runs on its own: neither the string nor the
/// filters reach back into it.
pub proof fn lemma_voice_envelope(v: Voice, setup: Setup, open: bool, volume: int, samples: nat)
    ensures
        voice_after(v, setup, open, volume, samples).envelope == v.envelope.held(
            setup.shape,
            open,
            samples,
        ),
    decreases samples,
{
    if samples > 0 {
        lemma_voice_envelope(v, setup, open, volume, (samples - 1) as nat);
    }
}

/// A silent voice whose gate opens is at full envelope level once the
/// attack time has passed (after one sample, if the attack takes no time).
pub proof fn lemma_voice_attack(v: Voice, setup: Setup, volume: int)
    requires
        setup.shape.wf(),
        v.envelope == Envelope::idle(),
    ensures
        ({
            let samples = if setup.shape.attack == 0 {
                1nat
            } else {
                setup.shape.attack as nat
            };
            voice_after(v, setup, true, volume, samples).envelope.level == ONE
        }),
{
    let samples = if setup.shape.attack == 0 {
        1nat
    } else {
        setup.shape.attack as nat
    };
    lemma_voice_envelope(v, setup, true, volume, samples);
    crate::envelope::lemma_attack_reaches_full_level(setup.shape);
}

/// While the envelope is idle and stays closed, nothing excites the string:
/// it rings freely, each round trip attenuating it once more.
pub proof fn lemma_voice_rings_freely(v: Voice, setup: Setup, volume: int, samples: nat)
    requires
        v.envelope == Envelope::idle(),
        v.line.len() > 0,
    ensures
        voice_after(v, setup, false, volume, samples).envelope == Envelope::idle(),
        voice_after(v, setup, false, volume, samples).line == crate::waveguide::rung(
            v.line,
            setup.gain,
            samples,
        ),
    decreases samples,
{
    if samples > 0 {
        lemma_voice_rings_freely(v, setup, volume, (samples - 1) as nat);
        assert(0 * volume == 0) by (nonlinear_arith);
    }
}

/// Rendering is a function of the state and the controls alone: two voices
/// in the same state, given the same controls, put out the same samples and
/// end in the same state.
pub proof fn lemma_render_repeatable(
    a: Voice,
    b: Voice,
    setup: Setup,
    open: bool,
    volume: int,
    samples: nat,
)
    requires
        a == b,
    ensures
        voice_after(a, setup, open, volume, samples) == voice_after(b, setup, open, volume, samples),
        forall|i: nat|
            i < samples ==> sample_at(a, setup, open, volume, i) == sample_at(
                b,
                setup,
                open,
                volume,
                i,
            ),
{
}

/// Writes one stereo frame into `output`, from `start` on and over at most
/// `channels` places: the left sample into the even channels, the right
/// sample into the odd ones. Everything else in `output` stays as it is.
pub fn write_frame<T: Copy>(output: &mut [T], start: usize, channels: usize, left: T, right: T)
    requires
        start <= old(output)@.len(),
    ensures
        final(output)@.len() == old(output)@.len(),
        forall|i: int|
            0 <= i < old(output)@.len() ==> #[trigger] final(output)@[i] == (if start <= i < start
                + channels {
                if (i - start) % 2 == 0 {
                    left
                } else {
                    right
                }
            } else {
                old(output)@[i]
            }),
{
    let len = output.len();
    let room = len - start;
    let mut c: usize = 0;
    while c < channels && c < room
        invariant
            c <= room,
            c <= channels,
            room == len - start,
            start <= len,
            output@.len() == len,
            len == old(output)@.len(),
            forall|i: int|
                0 <= i < len ==> #[trigger] output@[i] == (if start <= i < start + c {
                    if (i - start) % 2 == 0 {
                        left
                    } else {
                        right
                    }
                } else {
                    old(output)@[i]
                }),
        decreases room - c,
    {
        if c % 2 == 0 {
            output[start + c] = left;
        } else {
            output[start + c] = right;
        }
        c += 1;
    }
}

/// A voice: one string with its envelope and its harmonic bank.
pub struct Synth {
    shape: Shape,
    envelope: Envelope,
    string: Waveguide,
    bank: HarmonicBank,
}

impl Synth {
    /// Whether every part of the voice is well formed.
    pub closed spec fn wf(&self) -> bool {
        &&& self.shape.wf()
        &&& self.envelope.wf(self.shape)
        &&& self.string.wf()
        &&& self.bank.wf()
    }

    /// The state of the voice.
    pub closed spec fn view(&self) -> Voice {
        Voice { envelope: self.envelope, line: self.string@, filters: self.bank@ }
    }

    /// What the voice was built with.
    pub closed spec fn setup(&self) -> Setup {
        Setup { shape: self.shape, gain: self.string.gain_spec() }
    }

    /// A silent voice. The delay line holds `length` samples. A sustain
    /// level above full level, a line of no length, a gain outside the open
    /// range from zero to one and filter coefficients beyond the limit are
    /// refused.
    pub fn new(shape: Shape, length: usize, gain: Gain, coefficients: [Coefficients; 5]) -> (made:
        Result<Synth, ConfigError>)
        ensures
            made is Ok <==> {
                &&& shape.wf()
                &&& length > 0
                &&& gain.wf()
                &&& forall|i: int| 0 <= i < 5 ==> (#[trigger] coefficients@[i]).wf()
            },
            made matches Ok(s) ==> {
                &&& s.wf()
                &&& s.setup() == (Setup { shape, gain })
                &&& s@.envelope == Envelope::idle()
                &&& s@.line == Seq::new(length as nat, |i: int| 0int)
                &&& s@.filters == Seq::new(
                    5,
                    |i: int|
                        (Resonator { coefficients: coefficients@[i], x1: 0, x2: 0, y1: 0, y2: 0 }),
                )
            },
            made matches Err(e) ==> e == (if length == 0 {
                ConfigError::ZeroLength
            } else if !gain.wf() {
                ConfigError::GainOutOfRange
            } else {
                ConfigError::OutOfRange
            }),
    {
        let string = match Waveguide::new(length, gain) {
            Ok(w) => w,
            Err(e) => {
                return Err(e);
            },
        };
        if shape.sustain > ONE {
            return Err(ConfigError::OutOfRange);
        }
        let bank = match HarmonicBank::new(coefficients) {
            Some(b) => b,
            None => {
                return Err(ConfigError::OutOfRange);
            },
        };
        Ok(Synth { shape, envelope: Envelope::new(), string, bank })
    }

    /// The level of the envelope.
    pub fn level(&self) -> (level: u64)
        ensures
            level == self@.envelope.level,
    {
        self.envelope.level
    }

    /// The envelope.
    pub fn envelope(&self) -> (e: Envelope)
        ensures
            e == self@.envelope,
    {
        self.envelope
    }

    /// Advances the voice by one sample and returns the stereo frame: the
    /// same sample left and right.
    pub fn next_sample(&mut self, open: bool, volume: u64) -> (frame: (i64, i64))
        requires
            old(self).wf(),
            volume <= ONE,
        ensures
            final(self).wf(),
            final(self).setup() == old(self).setup(),
            final(self)@ == voice_stepped(old(self)@, old(self).setup(), open, volume as int),
            frame.0 == voice_output(old(self)@),
            frame.1 == frame.0,
            magnitude(frame.0 as int) <= 6 * SAMPLE_LIMIT,
    {
        let level = self.envelope.tick(&self.shape, open);
        proof {
            lemma_excitation_bound(level as int, volume as int);
            self.string.lemma_wf();
            assert(level * volume <= 65536 * 65536) by (nonlinear_arith)
                requires
                    level <= 65536,
                    volume <= 65536,
            ;
        }
        let pluck: u64 = level * volume / ONE;
        let tap = self.string.tick(pluck as i64);
        proof {
            let g = old(self).string.gain_spec();
            assert(magnitude(tap as int) <= g.peak());
            assert(g.peak() <= 65536 * 65536) by (nonlinear_arith)
                requires
                    g.peak() == 65536 * g.den,
                    g.den <= 65536,
            ;
        }
        let colour = self.bank.tick(tap);
        let out = tap + colour;
        (out, out)
    }

    /// Advances the voice by one sample under the controls that `store`
    /// holds at this instant. The frame is settled before the controls are
    /// read; the controls, whatever they are, shape the state that follows.
    pub fn play(&mut self, store: &ParameterStore) -> (frame: (i64, i64))
        requires
            old(self).wf(),
        ensures
            final(self).wf(),
            final(self).setup() == old(self).setup(),
            frame.0 == voice_output(old(self)@),
            frame.1 == frame.0,
            exists|open: bool, volume: int|
                0 <= volume <= ONE && final(self)@ == #[trigger] voice_stepped(
                    old(self)@,
                    old(self).setup(),
                    open,
                    volume,
                ),
    {
        let controls = store.read();
        let volume = controls.volume();
        let open = controls.gate.is_open();
        let frame = self.next_sample(open, volume);
        assert(self@ == voice_stepped(old(self)@, old(self).setup(), open, volume as int));
        frame
    }

    /// Renders into `output`, which holds frames of `channels` samples each,
    /// one after the other; the last frame may be cut short. Every place of
    /// a frame receives that frame's sample. Returns the number of frames
    /// rendered.
    pub fn render(&mut self, open: bool, volume: u64, output: &mut [i64], channels: usize) -> (frames:
        usize)
        requires
            old(self).wf(),
            volume <= ONE,
            channels > 0,
        ensures
            final(self).wf(),
            final(self).setup() == old(self).setup(),
            final(output)@.len() == old(output)@.len(),
            frames * channels >= old(output)@.len(),
            frames > 0 ==> (frames - 1) * channels < old(output)@.len(),
            final(self)@ == voice_after(
                old(self)@,
                old(self).setup(),
                open,
                volume as int,
                frames as nat,
            ),
            forall|i: int|
                0 <= i < old(output)@.len() ==> #[trigger] final(output)@[i] == sample_at(
                    old(self)@,
                    old(self).setup(),
                    open,
                    volume as int,
                    (i / channels as int) as nat,
                ),
    {
        let len = output.len();
        let ghost start = self@;
        let ghost setup = self.setup();
        let mut base: usize = 0;
        let mut frames: usize = 0;
        assert(0 * channels == 0);
        while base < len
            invariant
                base <= len,
                frames <= base,
                channels > 0,
                volume <= ONE,
                output@.len() == len,
                len == old(output)@.len(),
                self.wf(),
                self.setup() == setup,
                base < len ==> base == frames * channels,
                frames * channels >= base,
                frames > 0 ==> (frames - 1) * channels < base,
                self@ == voice_after(start, setup, open, volume as int, frames as nat),
                forall|i: int|
                    0 <= i < base ==> #[trigger] output@[i] == sample_at(
                        start,
                        setup,
                        open,
                        volume as int,
                        (i / channels as int) as nat,
                    ),
            decreases len - base,
        {
            let frame = self.next_sample(open, volume);
            let ghost before = output@;
            write_frame(output, base, channels, frame.0, frame.1);
            let room = len - base;
            let step = if channels < room {
                channels
            } else {
                room
            };
            proof {
                let f = frames as int;
                let ch = channels as int;
                assert((f + 1) * ch == f * ch + ch) by (nonlinear_arith);
                assert((f + 1 - 1) * ch == f * ch);
                assert forall|i: int| 0 <= i < base + step implies #[trigger] output@[i]
                    == sample_at(start, setup, open, volume as int, (i / ch) as nat) by {
                    if i >= base {
                        lemma_fundamental_div_mod_converse(i, ch, f, i - base);
                    } else {
                        assert(output@[i] == before[i]);
                    }
                }
            }
            base = base + step;
            frames = frames + 1;
        }
        frames
    }
}

/// The longest delay line that a voice is built with.
pub const LINE_LIMIT: u64 = 0xffff_ffff;

/// The envelope of a pluck on a string of `length` samples: it opens over
/// half a round trip, closes over the other half, and then stays shut.
pub open spec fn pluck_shape(length: int) -> Shape {
    Shape { attack: (length / 2) as u32, decay: (length / 2) as u32, sustain: 0, release: 0 }
}

/// Whether a voice can be built for `string` at `rate` samples per second:
/// the string can be measured, and its round trip lasts at least half a
/// sample and at most `LINE_LIMIT` samples.
pub open spec fn playable(string: StringSpec, rate: u32) -> bool {
    &&& string.wf()
    &&& rate <= RATE_LIMIT
    &&& exists|n: int| 0 < n <= LINE_LIMIT && #[trigger] string.round_trip_is(rate as int, n)
}

/// Builds the voice of a plucked string: a delay line as long as the round
/// trip of a wave along `string` at `rate` samples per second, fed back
/// through `gain`, excited through the envelope of a pluck, and coloured by
/// five filters with the given coefficients.
pub fn create_sound(string: StringSpec, rate: u32, gain: Gain, coefficients: [Coefficients; 5]) -> (made:
    Result<Synth, ConfigError>)
    ensures
        made is Ok <==> {
            &&& playable(string, rate)
            &&& gain.wf()
            &&& forall|i: int| 0 <= i < 5 ==> (#[trigger] coefficients@[i]).wf()
        },
        made matches Ok(s) ==> {
            &&& s.wf()
            &&& string.round_trip_is(rate as int, s@.line.len() as int)
            &&& s.setup() == (Setup { shape: pluck_shape(s@.line.len() as int), gain })
            &&& s@.envelope == Envelope::idle()
            &&& s@.line == Seq::new(s@.line.len(), |i: int| 0int)
            &&& s@.filters == Seq::new(
                5,
                |i: int| (Resonator { coefficients: coefficients@[i], x1: 0, x2: 0, y1: 0, y2: 0 }),
            )
        },
        made matches Err(e) ==> e == (if string.wf() && rate <= RATE_LIMIT && string.round_trip_is(
            rate as int,
            0,
        ) {
            ConfigError::ZeroLength
        } else if playable(string, rate) && !gain.wf() {
            ConfigError::GainOutOfRange
        } else {
            ConfigError::OutOfRange
        }),
{
    let length = match delay_length(string, rate) {
        Ok(n) => n,
        Err(e) => {
            proof {
                if string.wf() && rate <= RATE_LIMIT {
                    assert forall|n: int| 0 < n && string.round_trip_is(rate as int, n) implies false by {
                        lemma_nearest_unique(
                            n,
                            0,
                            string.trip_squared_num(rate as int),
                            string.trip_squared_den(),
                        );
                    }
                }
            }
            return Err(e);
        },
    };
    proof {
        assert forall|n: int| string.round_trip_is(rate as int, n) implies n == length by {
            lemma_nearest_unique(
                n,
                length as int,
                string.trip_squared_num(rate as int),
                string.trip_squared_den(),
            );
        }
    }
    if length > LINE_LIMIT {
        return Err(ConfigError::OutOfRange);
    }
    assert(string.round_trip_is(rate as int, length as int));
    let half: u32 = (length / 2) as u32;
    let shape = Shape { attack: half, decay: half, sustain: 0, release: 0 };
    let made = Synth::new(shape, length as usize, gain, coefficients);
    proof {
        if made is Ok {
            assert(made->Ok_0@.line.len() == length);
        }
    }
    made
}

} // verus!
