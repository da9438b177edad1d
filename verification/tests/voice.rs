use pluck_synth::controls::Controls;
use pluck_synth::envelope::{Envelope, Phase, Shape};
use pluck_synth::event::Event;
use pluck_synth::fixed::{ONE, SAMPLE_LIMIT};
use pluck_synth::harmonics::{harmonic_millihertz, weight, Coefficients, HarmonicBank, Resonator};
use pluck_synth::render::{create_sound, write_frame, Synth};
use pluck_synth::string::StringSpec;
use pluck_synth::waveguide::{ConfigError, Gain};

const ZERO: Coefficients = Coefficients { b0: 0, b1: 0, b2: 0, a1: 0, a2: 0 };
const PASS: Coefficients = Coefficients { b0: 65536, b1: 0, b2: 0, a1: 0, a2: 0 };
const BAND: Coefficients = Coefficients { b0: 3000, b1: 0, b2: -3000, a1: -120000, a2: 59536 };
const GAIN: Gain = Gain { num: 995, den: 1000 };

fn levels(e: &mut Envelope, shape: &Shape, open: bool, n: usize) -> Vec<u64> {
    (0..n).map(|_| e.tick(shape, open)).collect()
}

#[test]
fn envelope_runs_through_its_phases() {
    let shape = Shape { attack: 4, decay: 2, sustain: 32768, release: 4 };
    let mut e = Envelope::new();
    assert_eq!(e.phase, Phase::Idle);
    assert_eq!(levels(&mut e, &shape, false, 3), vec![0, 0, 0]);
    assert_eq!(levels(&mut e, &shape, true, 4), vec![16384, 32768, 49152, 65536]);
    assert_eq!(e.phase, Phase::Decay);
    assert_eq!(levels(&mut e, &shape, true, 2), vec![49152, 32768]);
    assert_eq!(e.phase, Phase::Sustain);
    assert_eq!(levels(&mut e, &shape, true, 5), vec![32768; 5]);
    assert_eq!(levels(&mut e, &shape, false, 4), vec![24576, 16384, 8192, 0]);
    assert_eq!(e.phase, Phase::Idle);
    assert_eq!(levels(&mut e, &shape, false, 2), vec![0, 0]);
}

#[test]
fn envelope_reaches_full_level_after_the_attack() {
    for attack in [1u32, 2, 3, 88, 1000] {
        let shape = Shape { attack, decay: 10, sustain: 0, release: 0 };
        let mut e = Envelope::new();
        let out = levels(&mut e, &shape, true, attack as usize);
        assert_eq!(*out.last().unwrap(), ONE);
        assert!(out.windows(2).all(|w| w[0] <= w[1]));
        assert!(out[..out.len() - 1].iter().all(|&l| l < ONE));
    }
}

#[test]
fn envelope_with_no_attack_time_opens_at_once() {
    let shape = Shape { attack: 0, decay: 0, sustain: 100, release: 0 };
    let mut e = Envelope::new();
    assert_eq!(levels(&mut e, &shape, true, 3), vec![65536, 100, 100]);
    assert_eq!(levels(&mut e, &shape, false, 2), vec![0, 0]);
    assert_eq!(e, Envelope::new());
}

#[test]
fn envelope_releases_from_the_level_it_has() {
    let shape = Shape { attack: 4, decay: 4, sustain: 0, release: 2 };
    let mut e = Envelope::new();
    assert_eq!(levels(&mut e, &shape, true, 2), vec![16384, 32768]);
    assert_eq!(levels(&mut e, &shape, false, 3), vec![16384, 0, 0]);
}

#[test]
fn envelope_retriggers_from_the_level_it_has() {
    let shape = Shape { attack: 4, decay: 4, sustain: 65536, release: 4 };
    let mut e = Envelope::new();
    levels(&mut e, &shape, true, 8);
    assert_eq!(levels(&mut e, &shape, false, 2), vec![49152, 32768]);
    assert_eq!(e.phase, Phase::Release);
    assert_eq!(levels(&mut e, &shape, true, 4), vec![40960, 49152, 57344, 65536]);
}

#[test]
fn envelope_of_the_plucked_string() {
    let shape = Shape { attack: 88, decay: 88, sustain: 0, release: 0 };
    let mut e = Envelope::new();
    let out = levels(&mut e, &shape, true, 200);
    assert_eq!(out[0], 65536 / 88);
    assert_eq!(out[87], ONE);
    assert_eq!(out[87 + 44], ONE / 2);
    assert_eq!(out[175], 0);
    assert!(out[176..].iter().all(|&l| l == 0));
    assert_eq!(e.phase, Phase::Sustain);
}

#[test]
fn resonator_follows_its_recurrence() {
    let mut r = Resonator::new(Coefficients { b0: 65536, b1: 32768, b2: 0, a1: 0, a2: -32768 });
    assert_eq!(r.tick(1000), 1000);
    assert_eq!(r.tick(0), 500);
    assert_eq!(r.tick(0), 500);
    assert_eq!(r.tick(0), 250);
    assert_eq!(r.x1, 0);
    assert_eq!(r.y1, 250);
    assert_eq!(r.y2, 500);
}

#[test]
fn resonator_rounds_toward_zero_and_saturates() {
    let mut r = Resonator::new(Coefficients { b0: 32768, b1: 0, b2: 0, a1: 0, a2: 0 });
    assert_eq!(r.tick(3), 1);
    assert_eq!(r.tick(-3), -1);
    let mut loud = Resonator::new(Coefficients { b0: 1_048_576, b1: 0, b2: 0, a1: 0, a2: 0 });
    assert_eq!(loud.tick(SAMPLE_LIMIT), SAMPLE_LIMIT);
    assert_eq!(loud.tick(-SAMPLE_LIMIT), -SAMPLE_LIMIT);
}

#[test]
fn band_pass_rings_and_dies_away() {
    let mut r = Resonator::new(BAND);
    let mut out = vec![r.tick(65536)];
    for _ in 0..2000 {
        out.push(r.tick(0));
    }
    assert_eq!(out[0], 3000);
    assert!(out.iter().any(|&y| y < 0));
    assert!(out[1900..].iter().all(|&y| y.abs() <= 16));
}

#[test]
fn bank_weights() {
    assert_eq!(weight(0), (10, 10));
    assert_eq!(weight(1), (5, 10));
    assert_eq!(weight(2), (5, 10));
    assert_eq!(weight(3), (3, 10));
    assert_eq!(weight(4), (2, 10));
}

#[test]
fn bank_mixes_by_weight() {
    let mut bank = HarmonicBank::new([PASS; 5]).unwrap();
    assert_eq!(bank.tick(1000), 1000 + 500 + 500 + 300 + 200);
    assert_eq!(bank.tick(-1000), -2500);
    let mut second = HarmonicBank::new([PASS, ZERO, ZERO, ZERO, ZERO]).unwrap();
    assert_eq!(second.tick(77), 77);
    let mut sixth = HarmonicBank::new([ZERO, ZERO, ZERO, ZERO, PASS]).unwrap();
    assert_eq!(sixth.tick(1000), 200);
    let mut fifth = HarmonicBank::new([ZERO, ZERO, ZERO, PASS, ZERO]).unwrap();
    assert_eq!(fifth.tick(1000), 300);
}

#[test]
fn bank_refuses_coefficients_beyond_the_limit() {
    let wide = Coefficients { b0: 1_048_577, ..ZERO };
    assert!(HarmonicBank::new([PASS, PASS, wide, PASS, PASS]).is_none());
    let negative = Coefficients { a2: -1_048_577, ..ZERO };
    assert!(HarmonicBank::new([PASS, PASS, PASS, PASS, negative]).is_none());
    assert!(!wide.is_wf());
    assert!(Coefficients { b0: 1_048_576, a1: -1_048_576, ..ZERO }.is_wf());
}

fn plucked(length: usize) -> Synth {
    let shape = Shape { attack: 4, decay: 4, sustain: 0, release: 0 };
    Synth::new(shape, length, GAIN, [BAND; 5]).unwrap()
}

#[test]
fn synth_refuses_bad_configuration() {
    let shape = Shape { attack: 4, decay: 4, sustain: 0, release: 0 };
    assert!(matches!(Synth::new(shape, 0, GAIN, [BAND; 5]), Err(ConfigError::ZeroLength)));
    assert!(matches!(
        Synth::new(shape, 8, Gain { num: 1, den: 1 }, [BAND; 5]),
        Err(ConfigError::GainOutOfRange)
    ));
    let loud = Shape { sustain: 65537, ..shape };
    assert!(matches!(Synth::new(loud, 8, GAIN, [BAND; 5]), Err(ConfigError::OutOfRange)));
    let wide = Coefficients { b0: 2_000_000, ..ZERO };
    assert!(matches!(Synth::new(shape, 8, GAIN, [wide; 5]), Err(ConfigError::OutOfRange)));
}

#[test]
fn synth_is_silent_until_played() {
    let mut s = plucked(8);
    for _ in 0..100 {
        assert_eq!(s.next_sample(false, 65536), (0, 0));
    }
    for _ in 0..100 {
        assert_eq!(s.next_sample(true, 0), (0, 0));
    }
}

#[test]
fn synth_without_filters_is_the_string() {
    let shape = Shape { attack: 2, decay: 2, sustain: 0, release: 0 };
    let mut s = Synth::new(shape, 3, Gain { num: 1, den: 2 }, [ZERO; 5]).unwrap();
    let out: Vec<i64> = (0..9).map(|_| s.next_sample(true, 65536).0).collect();
    assert_eq!(out, vec![0, 0, 0, 32768, 65536, 32768, 16384, 32768, 16384]);
    assert_eq!(s.level(), 0);
    assert_eq!(s.envelope().phase, Phase::Sustain);
}

#[test]
fn synth_scales_the_pluck_by_the_volume() {
    let shape = Shape { attack: 2, decay: 2, sustain: 0, release: 0 };
    let mut s = Synth::new(shape, 3, Gain { num: 1, den: 2 }, [ZERO; 5]).unwrap();
    let out: Vec<i64> = (0..6).map(|_| s.next_sample(true, 32768).0).collect();
    assert_eq!(out, vec![0, 0, 0, 16384, 32768, 16384]);
}

#[test]
fn synth_adds_the_harmonics_to_the_string() {
    let shape = Shape { attack: 1, decay: 1, sustain: 0, release: 0 };
    let mut s = Synth::new(shape, 2, Gain { num: 1, den: 2 }, [PASS; 5]).unwrap();
    let out: Vec<(i64, i64)> = (0..4).map(|_| s.next_sample(true, 65536)).collect();
    let tap = 65536i64;
    let full = tap + tap + tap / 2 + tap / 2 + tap * 3 / 10 + tap / 5;
    assert_eq!(out, vec![(0, 0), (0, 0), (full, full), (0, 0)]);
}

#[test]
fn note_on_opens_the_envelope_within_the_attack_time() {
    let shape = Shape { attack: 88, decay: 88, sustain: 0, release: 0 };
    let mut s = Synth::new(shape, 176, GAIN, [BAND; 5]).unwrap();
    let mut c = Controls::new();
    c.handle(Event::NoteOn { note: 69, velocity: 127 });
    assert_eq!(c.pitch, Some(69));
    assert_eq!(c.volume(), ONE);
    assert!(c.gate.is_open());
    for _ in 0..88 {
        s.next_sample(c.gate.is_open(), c.volume());
    }
    assert_eq!(s.level(), ONE);
}

#[test]
fn note_off_sends_the_envelope_into_release() {
    let shape = Shape { attack: 8, decay: 8, sustain: 30000, release: 8 };
    let mut s = Synth::new(shape, 16, GAIN, [BAND; 5]).unwrap();
    let mut c = Controls::new();
    c.handle(Event::NoteOn { note: 69, velocity: 127 });
    for _ in 0..20 {
        s.next_sample(c.gate.is_open(), c.volume());
    }
    assert_eq!(s.envelope().phase, Phase::Sustain);
    c.handle(Event::NoteOff { note: 69, velocity: 0 });
    s.next_sample(c.gate.is_open(), c.volume());
    assert_eq!(s.envelope().phase, Phase::Release);
    assert!(s.level() < 30000);
}

#[test]
fn stale_note_off_keeps_the_note_sounding() {
    let shape = Shape { attack: 8, decay: 8, sustain: 30000, release: 8 };
    let mut s = Synth::new(shape, 16, GAIN, [BAND; 5]).unwrap();
    let mut c = Controls::new();
    c.handle(Event::NoteOn { note: 69, velocity: 100 });
    c.handle(Event::NoteOn { note: 72, velocity: 100 });
    c.handle(Event::NoteOff { note: 69, velocity: 0 });
    for _ in 0..20 {
        s.next_sample(c.gate.is_open(), c.volume());
    }
    assert_eq!(s.envelope().phase, Phase::Sustain);
    assert_eq!(s.level(), 30000);
}

#[test]
fn rendering_twice_gives_the_same_samples() {
    let events = [
        (0usize, Event::NoteOn { note: 69, velocity: 127 }),
        (300, Event::NoteOn { note: 72, velocity: 90 }),
        (400, Event::NoteOff { note: 69, velocity: 0 }),
        (700, Event::NoteOff { note: 72, velocity: 0 }),
        (900, Event::NoteOn { note: 60, velocity: 30 }),
    ];
    let run = || {
        let mut s = plucked(50);
        let mut c = Controls::new();
        let mut out = Vec::new();
        for tick in 0..2000 {
            for (at, e) in events {
                if at == tick {
                    c.handle(e);
                }
            }
            out.push(s.next_sample(c.gate.is_open(), c.volume()));
        }
        out
    };
    let first = run();
    let second = run();
    assert_eq!(first, second);
    assert!(first.iter().any(|f| f.0 != 0));
    assert!(first.iter().all(|f| f.0 == f.1));
}

#[test]
fn write_frame_maps_even_and_odd_channels() {
    let mut out = [0i16; 8];
    write_frame(&mut out, 2, 5, -1, 1);
    assert_eq!(out, [0, 0, -1, 1, -1, 1, -1, 0]);
    let mut mono = [9u16; 3];
    write_frame(&mut mono, 1, 1, 4, 5);
    assert_eq!(mono, [9, 4, 9]);
}

#[test]
fn write_frame_stops_at_the_end() {
    let mut out = [0i32; 3];
    write_frame(&mut out, 2, 2, 7, 8);
    assert_eq!(out, [0, 0, 7]);
    write_frame(&mut out, 3, 2, 7, 8);
    assert_eq!(out, [0, 0, 7]);
    write_frame(&mut out, 0, 0, 1, 1);
    assert_eq!(out, [0, 0, 7]);
    let mut wide = [0u8; 2];
    write_frame(&mut wide, 0, usize::MAX, 1, 2);
    assert_eq!(wide, [1, 2]);
}

#[test]
fn render_fills_frames_in_order() {
    let mut a = plucked(5);
    let mut b = plucked(5);
    let mut out = [0i64; 14];
    let frames = a.render(true, 65536, &mut out, 4);
    assert_eq!(frames, 4);
    let expect: Vec<i64> = (0..4).map(|_| b.next_sample(true, 65536).0).collect();
    for (i, &x) in out.iter().enumerate() {
        assert_eq!(x, expect[i / 4]);
    }
    assert_eq!(a.next_sample(true, 65536), b.next_sample(true, 65536));
}

#[test]
fn render_of_nothing_renders_nothing() {
    let mut a = plucked(5);
    let mut out: [i64; 0] = [];
    assert_eq!(a.render(true, 65536, &mut out, 2), 0);
    let mut b = plucked(5);
    let mut one = [0i64; 6];
    assert_eq!(a.render(true, 65536, &mut one, 1), 6);
    let expect: Vec<i64> = (0..6).map(|_| b.next_sample(true, 65536).0).collect();
    assert_eq!(one.to_vec(), expect);
}

#[test]
fn play_follows_the_store() {
    let store = pluck_synth::store::ParameterStore::new();
    let shape = Shape { attack: 2, decay: 2, sustain: 0, release: 0 };
    let mut played = Synth::new(shape, 3, Gain { num: 1, den: 2 }, [PASS; 5]).unwrap();
    let mut stepped = Synth::new(shape, 3, Gain { num: 1, den: 2 }, [PASS; 5]).unwrap();
    for _ in 0..4 {
        assert_eq!(played.play(&store), (0, 0));
    }
    store.handle(Event::NoteOn { note: 69, velocity: 64 });
    let volume = store.read().volume();
    assert_eq!(volume, 33026);
    let mut heard = false;
    for _ in 0..40 {
        let frame = played.play(&store);
        assert_eq!(frame, stepped.next_sample(true, volume));
        heard = heard || frame.0 != 0;
    }
    assert!(heard);
    assert_eq!(played.envelope(), stepped.envelope());
}

#[test]
fn harmonics_are_multiples_of_the_fundamental() {
    assert_eq!(harmonic_millihertz(250_038, 0), 500_076);
    assert_eq!(harmonic_millihertz(250_038, 1), 750_114);
    assert_eq!(harmonic_millihertz(250_038, 2), 1_000_152);
    assert_eq!(harmonic_millihertz(250_038, 3), 1_250_190);
    assert_eq!(harmonic_millihertz(250_038, 4), 1_500_228);
    assert_eq!(harmonic_millihertz(0, 4), 0);
    assert_eq!(harmonic_millihertz(1_000_000_000_000_000, 4), 6_000_000_000_000_000);
}

#[test]
fn create_sound_builds_the_plucked_string() {
    let b_string = StringSpec { tension: 48_860, density: 477, length: 640 };
    let mut s = create_sound(b_string, 44_100, GAIN, [ZERO; 5]).unwrap();
    let out: Vec<i64> = (0..400).map(|_| s.next_sample(true, 65536).0).collect();
    assert!(out[..176].iter().all(|&x| x == 0));
    assert_eq!(out[176], 65536 / 88);
    assert_eq!(out[176 + 87], 65536);
    assert_eq!(out[176 + 175], 0);
    assert_eq!(out[352], 65536 / 88 * 995 / 1000);
    assert_eq!(s.envelope().phase, Phase::Sustain);
    assert_eq!(s.level(), 0);
}

#[test]
fn create_sound_refuses_bad_configuration() {
    let b_string = StringSpec { tension: 48_860, density: 477, length: 640 };
    assert!(matches!(create_sound(b_string, 1, GAIN, [ZERO; 5]), Err(ConfigError::ZeroLength)));
    assert!(matches!(create_sound(b_string, 2_000_000, GAIN, [ZERO; 5]), Err(ConfigError::OutOfRange)));
    let slack = StringSpec { tension: 0, ..b_string };
    assert!(matches!(create_sound(slack, 44_100, GAIN, [ZERO; 5]), Err(ConfigError::OutOfRange)));
    assert!(matches!(
        create_sound(b_string, 44_100, Gain { num: 1000, den: 1000 }, [ZERO; 5]),
        Err(ConfigError::GainOutOfRange)
    ));
    let wide = Coefficients { a1: 3_000_000, ..ZERO };
    assert!(matches!(create_sound(b_string, 44_100, GAIN, [wide; 5]), Err(ConfigError::OutOfRange)));
    let endless = StringSpec { tension: 1, density: 16_777_215, length: 1_048_575 };
    assert!(matches!(create_sound(endless, 1_048_575, GAIN, [ZERO; 5]), Err(ConfigError::OutOfRange)));
}
