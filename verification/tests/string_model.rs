use pluck_synth::fixed::{clamp, scale, ONE, SAMPLE_LIMIT};
use pluck_synth::string::{delay_length, root, StringSpec};
use pluck_synth::waveguide::{ConfigError, Gain, Waveguide};

const B_STRING: StringSpec = StringSpec { tension: 48_860, density: 477, length: 640 };

fn round_trip_seconds(s: StringSpec) -> f64 {
    let tension = s.tension as f64 / 1000.0;
    let density = s.density as f64 / 1_000_000.0;
    let length = s.length as f64 / 1000.0;
    2.0 * length / (tension / density).sqrt()
}

#[test]
fn scale_rounds_toward_zero() {
    assert_eq!(scale(7, 1, 2), 3);
    assert_eq!(scale(-7, 1, 2), -3);
    assert_eq!(scale(65536, 995, 1000), 65208);
    assert_eq!(scale(-65536, 995, 1000), -65208);
    assert_eq!(scale(0, 5, 10), 0);
    assert_eq!(scale(9, 10, 10), 9);
}

#[test]
fn clamp_limits_to_the_sample_range() {
    assert_eq!(clamp(5), 5);
    assert_eq!(clamp(-5), -5);
    assert_eq!(clamp(SAMPLE_LIMIT + 1), SAMPLE_LIMIT);
    assert_eq!(clamp(-SAMPLE_LIMIT - 1), -SAMPLE_LIMIT);
    assert_eq!(clamp(i64::MAX), SAMPLE_LIMIT);
    assert_eq!(clamp(i64::MIN), -SAMPLE_LIMIT);
}

#[test]
fn root_is_the_whole_part() {
    assert_eq!(root(0), 0);
    assert_eq!(root(1), 1);
    assert_eq!(root(3), 1);
    assert_eq!(root(4), 2);
    assert_eq!(root(99), 9);
    assert_eq!(root(100), 10);
    assert_eq!(root(1_000_000_000_000), 1_000_000);
    assert_eq!(root((1u128 << 108) - 1), (1u128 << 54) - 1);
}

#[test]
fn delay_length_of_the_b_string() {
    assert_eq!(delay_length(B_STRING, 44_100), Ok(176));
    assert_eq!(delay_length(B_STRING, 48_000), Ok(192));
    assert_eq!(delay_length(B_STRING, 8_000), Ok(32));
}

#[test]
fn delay_length_matches_the_closed_form() {
    let strings = [
        B_STRING,
        StringSpec { tension: 70_000, density: 1_000, length: 650 },
        StringSpec { tension: 1, density: 16_777_215, length: 1_048_575 },
        StringSpec { tension: 123_456, density: 5_432, length: 1_000 },
        StringSpec { tension: 4_000_000_000, density: 1, length: 500 },
    ];
    for s in strings {
        for rate in [8_000u32, 22_050, 44_100, 48_000, 96_000, 1_048_575] {
            let exact = round_trip_seconds(s) * rate as f64;
            let fundamental = 1.0 / round_trip_seconds(s);
            assert!((fundamental * round_trip_seconds(s) - 1.0).abs() < 1e-12);
            match delay_length(s, rate) {
                Ok(n) => {
                    assert!(n > 0);
                    assert!((n as f64 - exact).abs() <= 0.5 + 1e-6 * exact, "{} {}", n, exact);
                }
                Err(e) => {
                    assert_eq!(e, ConfigError::ZeroLength);
                    assert!(exact < 0.5 + 1e-9);
                }
            }
        }
    }
}

#[test]
fn delay_length_refuses_a_string_too_short() {
    assert_eq!(delay_length(B_STRING, 1), Err(ConfigError::ZeroLength));
    assert_eq!(
        delay_length(StringSpec { tension: 48_860, density: 477, length: 1 }, 44_100),
        Err(ConfigError::ZeroLength)
    );
    assert_eq!(
        delay_length(StringSpec { tension: 48_860, density: 0, length: 640 }, 44_100),
        Err(ConfigError::ZeroLength)
    );
}

#[test]
fn delay_length_refuses_what_is_out_of_range() {
    assert_eq!(
        delay_length(StringSpec { tension: 0, density: 477, length: 640 }, 44_100),
        Err(ConfigError::OutOfRange)
    );
    assert_eq!(
        delay_length(StringSpec { tension: 1, density: 16_777_216, length: 640 }, 44_100),
        Err(ConfigError::OutOfRange)
    );
    assert_eq!(
        delay_length(StringSpec { tension: 1, density: 1, length: 1_048_576 }, 44_100),
        Err(ConfigError::OutOfRange)
    );
    assert_eq!(delay_length(B_STRING, 1_048_576), Err(ConfigError::OutOfRange));
}

#[test]
fn waveguide_refuses_zero_length() {
    assert!(matches!(Waveguide::new(0, Gain { num: 995, den: 1000 }), Err(ConfigError::ZeroLength)));
    assert!(matches!(Waveguide::new(0, Gain { num: 0, den: 0 }), Err(ConfigError::ZeroLength)));
}

#[test]
fn waveguide_refuses_a_gain_outside_zero_to_one() {
    for gain in [
        Gain { num: 0, den: 10 },
        Gain { num: 10, den: 10 },
        Gain { num: 11, den: 10 },
        Gain { num: 1, den: 0 },
        Gain { num: 1, den: 65537 },
    ] {
        assert!(matches!(Waveguide::new(4, gain), Err(ConfigError::GainOutOfRange)));
    }
    assert!(Waveguide::new(4, Gain { num: 65535, den: 65536 }).is_ok());
}

#[test]
fn waveguide_delays_by_its_length() {
    let gain = Gain { num: 1, den: 2 };
    let mut w = Waveguide::new(3, gain).unwrap();
    assert_eq!(w.len(), 3);
    assert_eq!(w.gain(), gain);
    let input = [100i64, 0, 0, 0, 0, 0, 0, 0, 0, 0];
    let output: Vec<i64> = input.iter().map(|&x| w.tick(x)).collect();
    assert_eq!(output, vec![0, 0, 0, 100, 0, 0, 50, 0, 0, 25]);
}

#[test]
fn waveguide_sums_excitation_and_feedback() {
    let mut w = Waveguide::new(2, Gain { num: 1, den: 2 }).unwrap();
    let input = [8i64, -4, 8, 0, 0, 0, 0];
    let output: Vec<i64> = input.iter().map(|&x| w.tick(x)).collect();
    assert_eq!(output, vec![0, 0, 8, -4, 12, -2, 6]);
}

#[test]
fn waveguide_length_one() {
    let mut w = Waveguide::new(1, Gain { num: 9, den: 10 }).unwrap();
    assert_eq!(w.tick(1000), 0);
    assert_eq!(w.tick(0), 1000);
    assert_eq!(w.tick(0), 900);
    assert_eq!(w.tick(0), 810);
}

fn ring(gain: Gain, length: usize, trips: usize) -> Vec<i64> {
    let mut w = Waveguide::new(length, gain).unwrap();
    let mut peaks = Vec::new();
    for tick in 0..(length * trips + 1) {
        let tap = w.tick(if tick == 0 { ONE as i64 } else { 0 });
        if tick > 0 && tick % length == 0 {
            peaks.push(tap);
        }
    }
    peaks
}

#[test]
fn free_decay_is_geometric() {
    for (num, den) in [(9u64, 10u64), (95, 100), (995, 1000)] {
        let peaks = ring(Gain { num, den }, 4, 40);
        let g = num as f64 / den as f64;
        for (n, &p) in peaks.iter().enumerate() {
            let ideal = ONE as f64 * g.powi(n as i32);
            assert!(p as f64 <= ideal + 1e-6);
            assert!(p as f64 >= ideal - 1.0 / (1.0 - g));
        }
    }
}

#[test]
fn free_decay_exact_values() {
    assert_eq!(ring(Gain { num: 9, den: 10 }, 4, 5), vec![65536, 58982, 53083, 47774, 42996]);
    assert_eq!(ring(Gain { num: 95, den: 100 }, 4, 5), vec![65536, 62259, 59146, 56188, 53378]);
    assert_eq!(ring(Gain { num: 995, den: 1000 }, 4, 5), vec![65536, 65208, 64881, 64556, 64233]);
}

#[test]
fn free_decay_reaches_silence() {
    let peaks = ring(Gain { num: 9, den: 10 }, 2, 200);
    assert_eq!(*peaks.last().unwrap(), 0);
}

#[test]
fn constant_excitation_stays_bounded() {
    let gain = Gain { num: 995, den: 1000 };
    let mut w = Waveguide::new(3, gain).unwrap();
    for _ in 0..100_000 {
        let tap = w.tick(ONE as i64);
        assert!(tap <= (ONE * gain.den) as i64);
        assert!(tap >= 0);
    }
}

#[test]
fn fundamental_of_the_b_string() {
    assert_eq!(pluck_synth::string::fundamental_millihertz(B_STRING), Ok(250_038));
    let exact = 1000.0 / round_trip_seconds(B_STRING);
    assert!((250_038.0 - exact).abs() < 1.0);
}

#[test]
fn fundamental_is_one_over_the_round_trip() {
    for s in [
        B_STRING,
        StringSpec { tension: 70_000, density: 1_000, length: 650 },
        StringSpec { tension: 1, density: 1, length: 1 },
        StringSpec { tension: 4_294_967_295, density: 1, length: 1 },
        StringSpec { tension: 1, density: 16_777_215, length: 1_048_575 },
    ] {
        let f = pluck_synth::string::fundamental_millihertz(s).unwrap() as f64;
        let exact = 1000.0 / round_trip_seconds(s);
        assert!(f <= exact * (1.0 + 1e-12));
        assert!(f + 1.0 >= exact * (1.0 - 1e-12));
    }
    assert_eq!(
        pluck_synth::string::fundamental_millihertz(StringSpec { tension: 1, density: 1, length: 1 }),
        Ok(15_811_388)
    );
}

#[test]
fn fundamental_refuses_a_string_without_length_or_mass() {
    for s in [
        StringSpec { tension: 0, density: 477, length: 640 },
        StringSpec { tension: 48_860, density: 0, length: 640 },
        StringSpec { tension: 48_860, density: 477, length: 0 },
        StringSpec { tension: 48_860, density: 16_777_216, length: 640 },
        StringSpec { tension: 48_860, density: 477, length: 1_048_576 },
    ] {
        assert_eq!(pluck_synth::string::fundamental_millihertz(s), Err(ConfigError::OutOfRange));
    }
}
