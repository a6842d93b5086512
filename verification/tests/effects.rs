use fiis::arithmetic::{Arithmetic, Biquad, FilterShape, History};
use fiis::chain::{
    add_effect, apply_chain, standard_effects, typed_chain, typed_entry, validate_chain,
    ChainEntry, ChainError,
};
use fiis::decoder::{normalize_samples, sample_layout, DecodeError, RawSamples, SampleLayout};
use fiis::delay::{delay, DelayError};
use fiis::delay_line::{DelayLine, LineError, MAX_SLOTS};
use fiis::dynamics::{self, DynamicsError};
use fiis::encoder::{clip_count, quantize, EncodeError};
use fiis::number::LiteralError;
use fiis::parse_utils;
use fiis::effect_modules::delay::{pad_to_frames, Delay, HIGH_FEEDBACK};
use fiis::effect_modules::tail::{TailGuard, THRESHOLD64};
use fiis::effect_modules::eqband::EqBand;
use fiis::effect_parser;
use fiis::ieee;
use fiis::types::{
    Argument, ArgumentSet, AudioBuffer, EffectKind, ParseError, ProcessingError, SampleEncoding,
    SampleFormat, ValidationError, Warning,
};
use std::collections::VecDeque;

struct Native;

fn f(w: u32) -> f32 {
    f32::from_bits(w)
}

fn d(w: u64) -> f64 {
    f64::from_bits(w)
}

impl Arithmetic for Native {
    fn number(&self, literal: &str) -> u32 {
        literal.parse::<f32>().unwrap_or(f32::NAN).to_bits()
    }

    fn amplitude(&self, db: u32) -> u32 {
        10.0_f32.powf(f(db) / 20.0).to_bits()
    }

    fn product(&self, a: u32, b: u32) -> u32 {
        (f(a) * f(b)).to_bits()
    }

    fn blend(&self, a: u32, b: u32, c: u32) -> u32 {
        (f(a) + f(b) * f(c)).to_bits()
    }

    fn quotient(&self, a: u32, b: u32) -> u32 {
        (f(a) / f(b)).to_bits()
    }

    fn saturate(&self, a: u32, b: u32) -> u32 {
        (f(a) * f(b)).tanh().to_bits()
    }

    fn delay_slots(&self, time: u32, sample_rate: u32, channels: u16) -> usize {
        ((f(time) / 1000.0) * sample_rate as f32 * channels as f32).round() as usize
    }

    fn tail_frames(&self, seconds: u32, sample_rate: u32) -> u32 {
        (f(seconds) * sample_rate as f32) as u32
    }

    fn add_square(&self, sum: u64, v: u32) -> u64 {
        (d(sum) + f(v) as f64 * f(v) as f64).to_bits()
    }

    fn sub_square(&self, sum: u64, v: u32) -> u64 {
        (d(sum) - f(v) as f64 * f(v) as f64).to_bits()
    }

    fn level(&self, sum: u64, slots: usize) -> u64 {
        (1.0 / (slots as f64).sqrt() * d(sum).sqrt()).to_bits()
    }

    fn section(&self, shape: FilterShape, frequency: u32, db: u32, q: u32, sample_rate: u32) -> Biquad {
        let a = 10.0_f64.powf(f(db) as f64 / 40.0);
        let w0 = 2.0 * std::f64::consts::PI * (f(frequency) as f64 / sample_rate as f64);
        let c = w0.cos();
        let alpha = w0.sin() / (2.0 * f(q) as f64);
        let r = 2.0 * a.sqrt() * alpha;
        let (b0, b1, b2, a0, a1, a2) = match shape {
            FilterShape::Peaking => {
                (1.0 + alpha * a, -2.0 * c, 1.0 - alpha * a, 1.0 + alpha / a, -2.0 * c, 1.0 - alpha / a)
            }
            FilterShape::BandPass => (alpha, 0.0, -alpha, 1.0 + alpha, -2.0 * c, 1.0 - alpha),
            FilterShape::LowShelf => (
                a * ((a + 1.0) - (a - 1.0) * c + r),
                2.0 * a * ((a - 1.0) - (a + 1.0) * c),
                a * ((a + 1.0) - (a - 1.0) * c - r),
                (a + 1.0) + (a - 1.0) * c + r,
                -2.0 * ((a - 1.0) + (a + 1.0) * c),
                (a + 1.0) + (a - 1.0) * c - r,
            ),
            FilterShape::HighShelf => (
                a * ((a + 1.0) + (a - 1.0) * c + r),
                -2.0 * a * ((a - 1.0) + (a + 1.0) * c),
                a * ((a + 1.0) + (a - 1.0) * c - r),
                (a + 1.0) - (a - 1.0) * c + r,
                2.0 * ((a - 1.0) - (a + 1.0) * c),
                (a + 1.0) - (a - 1.0) * c - r,
            ),
        };
        Biquad {
            b0: (b0 / a0).to_bits(),
            b1: (b1 / a0).to_bits(),
            b2: (b2 / a0).to_bits(),
            a1: (a1 / a0).to_bits(),
            a2: (a2 / a0).to_bits(),
        }
    }

    fn from_i16(&self, raw: i16) -> u32 {
        (raw as f32 / i16::MAX as f32).to_bits()
    }

    fn from_i32(&self, raw: i32) -> u32 {
        (raw as f32 / i32::MAX as f32).to_bits()
    }

    fn to_i16(&self, sample: u32) -> i16 {
        (f(sample) * i16::MAX as f32) as i16
    }

    fn to_i32(&self, sample: u32) -> i32 {
        (f(sample) * i32::MAX as f32) as i32
    }

    fn widen(&self, x: u32) -> u64 {
        (f(x) as f64).to_bits()
    }

    fn narrow(&self, y: u64) -> u32 {
        (d(y) as f32).to_bits()
    }

    fn filter(&self, s: &Biquad, x0: u64, h: &History) -> u64 {
        (d(s.b0) * d(x0) + d(s.b1) * d(h.x1) + d(s.b2) * d(h.x2) - d(s.a1) * d(h.y1)
            - d(s.a2) * d(h.y2))
            .to_bits()
    }
}

fn format(sample_rate: u32, channels: u16) -> SampleFormat {
    SampleFormat { sample_rate, channels, bits_per_sample: 16, encoding: SampleEncoding::Int }
}

fn buffer(sample_rate: u32, channels: u16, samples: &[f32]) -> AudioBuffer {
    AudioBuffer::new(format(sample_rate, channels), samples.iter().map(|s| s.to_bits()).collect())
        .unwrap()
}

fn floats(buffer: &AudioBuffer) -> Vec<f32> {
    buffer.samples.iter().map(|w| f(*w)).collect()
}

fn arguments(pairs: &[(&str, f32)]) -> ArgumentSet {
    let mut set = ArgumentSet::new();
    for (key, value) in pairs {
        set.insert(key, value.to_bits());
    }
    set
}

fn delay_arguments(mix: f32, fb: f32, time: f32) -> ArgumentSet {
    arguments(&[("mix", mix), ("fb", fb), ("time", time)])
}

/// The delay as a plain loop over floating-point values.
fn reference_delay(
    input: &[f32],
    sample_rate: u32,
    channels: u16,
    mix: f32,
    feedback: f32,
    time: f32,
    tail: Option<f32>,
) -> Vec<f32> {
    let size = ((time / 1000.0) * sample_rate as f32 * channels as f32).round() as usize;
    let mut samples = input.to_vec();
    let mut line: VecDeque<f32> = VecDeque::new();
    let enqueue = |line: &mut VecDeque<f32>, v: f32| {
        if line.len() == size {
            line.pop_front();
        }
        line.push_back(v);
    };
    enqueue(&mut line, 0.0);
    for sample in samples.iter_mut() {
        let delayed = *line.front().unwrap();
        enqueue(&mut line, *sample + delayed * feedback);
        *sample += delayed * mix;
    }
    let mut square_sum: f64 = 0.0;
    for v in line.iter() {
        square_sum += *v as f64 * *v as f64;
    }
    let factor = 1.0 / (size as f64).sqrt();
    match tail {
        Some(seconds) => {
            let count = channels as usize * ((seconds * sample_rate as f32) as u32) as usize;
            for _ in 0..count {
                let delayed = *line.front().unwrap();
                enqueue(&mut line, delayed * feedback);
                samples.push((delayed * mix).clamp(-1.0, 1.0));
            }
        }
        None => {
            let mut counter: usize = 0;
            let mut previous = f64::INFINITY;
            while factor * square_sum.sqrt() > 0.0001 {
                let energy = factor * square_sum.sqrt();
                if energy < previous {
                    counter = 0;
                } else if energy >= previous {
                    counter += 1;
                }
                if counter >= size {
                    break;
                }
                previous = energy;
                let front = *line.front().unwrap();
                square_sum -= front as f64 * front as f64;
                enqueue(&mut line, front * feedback);
                let back = *line.back().unwrap();
                square_sum += back as f64 * back as f64;
                samples.push((front * mix).clamp(-1.0, 1.0));
            }
        }
    }
    while samples.len() % channels as usize != 0 {
        samples.push(0.0);
    }
    samples
}

fn bits(v: &[f32]) -> Vec<u32> {
    v.iter().map(|x| x.to_bits()).collect()
}

#[test]
fn constants_are_the_patterns_of_their_values() {
    assert_eq!(ieee::ONE32, 1.0_f32.to_bits());
    assert_eq!(ieee::MINUS_ONE32, (-1.0_f32).to_bits());
    assert_eq!(ieee::ZERO32, 0.0_f32.to_bits());
    assert_eq!(ieee::INFINITY32, f32::INFINITY.to_bits());
    assert_eq!(ieee::INFINITY64, f64::INFINITY.to_bits());
    assert_eq!(ieee::SIGN32, (-0.0_f32).to_bits());
    assert_eq!(ieee::SIGN64, (-0.0_f64).to_bits());
    assert_eq!(HIGH_FEEDBACK, 0.9_f32.to_bits());
    assert_eq!(THRESHOLD64, 0.0001_f64.to_bits());
}

#[test]
fn delay_name() {
    assert_eq!(Delay.get_name(), "delay");
    assert_eq!(EqBand.get_name(), "eqband");
}

#[test]
fn delay_validation_reports_missing_arguments_in_order() {
    let missing = |argument| ValidationError::Missing { effect: EffectKind::Delay, argument };
    assert_eq!(Delay.validate_arguments(&arguments(&[]), &None), Err(missing(Argument::Mix)));
    assert_eq!(
        Delay.validate_arguments(&arguments(&[("mix", 0.5), ("time", 10.0)]), &None),
        Err(missing(Argument::Feedback))
    );
    assert_eq!(
        Delay.validate_arguments(&arguments(&[("mix", 0.5), ("fb", 0.5)]), &None),
        Err(missing(Argument::Time))
    );
    assert_eq!(
        missing(Argument::Feedback).message(),
        "missing delay argument 'fb' (add 'fb=x' to 'delay:')"
    );
}

#[test]
fn delay_validation_feedback_of_one_needs_a_tail() {
    for fb in [1.0_f32, 1.5, f32::INFINITY] {
        assert_eq!(
            Delay.validate_arguments(&delay_arguments(0.5, fb, 10.0), &None),
            Err(ValidationError::TailRequired)
        );
        assert_eq!(
            Delay.validate_arguments(&delay_arguments(0.5, fb, 10.0), &Some(2.0_f32.to_bits())),
            Ok(None)
        );
    }
}

#[test]
fn delay_validation_ranges() {
    assert_eq!(
        Delay.validate_arguments(&delay_arguments(0.5, 0.5, 0.5), &None),
        Err(ValidationError::TimeTooShort)
    );
    assert_eq!(Delay.validate_arguments(&delay_arguments(0.5, 0.5, 1.0), &None), Ok(None));
    assert_eq!(
        Delay.validate_arguments(&delay_arguments(-0.1, 0.5, 10.0), &None),
        Err(ValidationError::NegativeMix)
    );
    assert_eq!(Delay.validate_arguments(&delay_arguments(-0.0, 0.0, 10.0), &None), Ok(None));
    assert_eq!(
        Delay.validate_arguments(&delay_arguments(0.5, -0.5, 10.0), &None),
        Err(ValidationError::NegativeFeedback)
    );
    assert_eq!(
        Delay.validate_arguments(&delay_arguments(-1.0, 2.0, 0.0), &None),
        Err(ValidationError::TailRequired)
    );
    assert_eq!(
        Delay.validate_arguments(&delay_arguments(-1.0, -1.0, 0.0), &None),
        Err(ValidationError::TimeTooShort)
    );
    assert_eq!(Delay.validate_arguments(&delay_arguments(f32::NAN, f32::NAN, f32::NAN), &None), Ok(None));
}

#[test]
fn delay_validation_warns_of_feedback_near_one() {
    assert_eq!(
        Delay.validate_arguments(&delay_arguments(0.5, 0.95, 10.0), &None),
        Ok(Some(Warning::LongTail))
    );
    assert_eq!(Delay.validate_arguments(&delay_arguments(0.5, 0.9, 10.0), &None), Ok(None));
    assert_eq!(
        Delay.validate_arguments(&delay_arguments(0.5, 0.95, 10.0), &Some(1.0_f32.to_bits())),
        Ok(None)
    );
    assert!(Warning::LongTail.message().contains("feedback"));
}

#[test]
fn delay_line_keeps_the_latest_values() {
    assert_eq!(DelayLine::new(0).err(), Some(LineError::Empty));
    assert_eq!(DelayLine::new(MAX_SLOTS + 1).err(), Some(LineError::TooLong));
    let mut line = DelayLine::new(3).ok().unwrap();
    assert_eq!(line.slots(), 3);
    assert_eq!(line.contents(), vec![0]);
    assert_eq!(line.delayed(), 0);
    line.rotate(7);
    line.rotate(8);
    assert_eq!(line.contents(), vec![0, 7, 8]);
    assert_eq!(line.delayed(), 0);
    assert_eq!(line.newest(), 8);
    line.rotate(9);
    assert_eq!(line.contents(), vec![7, 8, 9]);
    assert_eq!(line.delayed(), 7);
    assert_eq!(line.newest(), 9);
}

#[test]
fn tail_guard_counts_levels_that_do_not_fall_in_a_row() {
    let g = TailGuard::new();
    assert_eq!(g, TailGuard { counter: 0, previous: f64::INFINITY.to_bits() });
    assert_eq!(g.observe(0.0001_f64.to_bits(), 4), None);
    assert_eq!(g.observe(f64::NAN.to_bits(), 4), None);
    let g = g.observe(0.5_f64.to_bits(), 4).unwrap();
    assert_eq!(g, TailGuard { counter: 0, previous: 0.5_f64.to_bits() });
    let g = g.observe(0.5_f64.to_bits(), 4).unwrap();
    assert_eq!(g.counter, 1);
    let g = g.observe(0.6_f64.to_bits(), 4).unwrap();
    assert_eq!(g.counter, 2);
    let g = g.observe(0.4_f64.to_bits(), 4).unwrap();
    assert_eq!(g.counter, 0);
    let g = g.observe(0.4_f64.to_bits(), 4).unwrap();
    let g = g.observe(0.4_f64.to_bits(), 4).unwrap();
    let g = g.observe(0.4_f64.to_bits(), 4).unwrap();
    assert_eq!(g.counter, 3);
    assert_eq!(g.observe(0.4_f64.to_bits(), 4), None);
    assert_eq!(g.observe(0.5_f64.to_bits(), 4), None);
    assert_eq!(
        g.observe(0.3_f64.to_bits(), 4),
        Some(TailGuard { counter: 0, previous: 0.3_f64.to_bits() })
    );
}

#[test]
fn a_fall_starts_the_count_anew() {
    let mut g = TailGuard::new();
    let levels = [1.0_f64, 1.0, 1.0, 0.5, 0.5, 0.5];
    let counts = [0, 1, 2, 0, 1, 2];
    for (level, count) in levels.iter().zip(counts.iter()) {
        g = g.observe(level.to_bits(), 3).unwrap();
        assert_eq!(g.counter, *count);
        assert_eq!(g.previous, level.to_bits());
    }
    assert_eq!(g.observe(0.5_f64.to_bits(), 3), None);
}

#[test]
fn stagnating_level_ends_the_tail_after_as_many_samples_as_slots() {
    let slots = 5;
    let mut g = TailGuard { counter: 0, previous: 0.5_f64.to_bits() };
    let mut passed = 0;
    while let Some(next) = g.observe(0.5_f64.to_bits(), slots) {
        g = next;
        passed += 1;
        assert!(passed < slots);
    }
    assert_eq!(passed, slots - 1);
}

#[test]
fn impulse_gives_echoes_that_halve() {
    let mut input = vec![0.0_f32; 44100];
    input[0] = 1.0;
    let mut b = buffer(44100, 1, &input);
    let r = Delay.apply_effect(&mut b, &delay_arguments(0.5, 0.5, 10.0), &None, &Native);
    assert_eq!(r, Ok(()));
    let out = floats(&b);
    let slots = 441;
    assert_eq!(out[0], 1.0);
    let mut expected = 0.5_f32;
    let mut at = slots;
    while at < input.len() {
        assert_eq!(out[at], expected, "echo at {}", at);
        expected *= 0.5;
        at += slots;
    }
    for (i, v) in out.iter().enumerate().take(input.len()) {
        if i % slots != 0 {
            assert_eq!(*v, 0.0, "sample {}", i);
        }
    }
    let window = &out[out.len() - slots..];
    let energy: f64 = window.iter().map(|v| (*v as f64 / 0.5) * (*v as f64 / 0.5)).sum();
    assert!((energy / slots as f64).sqrt() <= 0.0001);
    assert_eq!(bits(&out), bits(&reference_delay(&input, 44100, 1, 0.5, 0.5, 10.0, None)));
}

#[test]
fn short_impulse_rings_on_until_the_line_is_quiet() {
    let mut input = vec![0.0_f32; 442];
    input[0] = 1.0;
    let mut b = buffer(44100, 1, &input);
    let r = Delay.apply_effect(&mut b, &delay_arguments(0.5, 0.5, 10.0), &None, &Native);
    assert_eq!(r, Ok(()));
    let out = floats(&b);
    assert_eq!(out.len(), 3970);
    for (i, v) in out.iter().enumerate() {
        if i % 441 == 0 {
            assert_eq!(*v, 0.5_f32.powi((i / 441) as i32), "echo at {}", i);
        } else {
            assert_eq!(*v, 0.0, "sample {}", i);
        }
    }
    assert_eq!(out[3969], 0.5_f32.powi(9));
    assert!(0.5_f64.powi(9) / 21.0 <= 0.0001 && 0.0001 < 0.5_f64.powi(8) / 21.0);
    assert_eq!(bits(&out), bits(&reference_delay(&input, 44100, 1, 0.5, 0.5, 10.0, None)));
}

#[test]
fn tail_goes_on_with_the_delayed_sample() {
    let input = [1.0_f32, 0.0, 0.0, 0.0];
    let mut b = buffer(2, 1, &input);
    let r = Delay.apply_effect(
        &mut b,
        &delay_arguments(0.5, 0.5, 1000.0),
        &Some(1.0_f32.to_bits()),
        &Native,
    );
    assert_eq!(r, Ok(()));
    assert_eq!(floats(&b), vec![1.0, 0.0, 0.5, 0.0, 0.25, 0.0]);
    let longer = Some(3.0_f32.to_bits());
    let mut c = buffer(2, 1, &input);
    assert_eq!(
        Delay.apply_effect(&mut c, &delay_arguments(0.5, 0.5, 1000.0), &longer, &Native),
        Ok(())
    );
    assert_eq!(floats(&c), vec![1.0, 0.0, 0.5, 0.0, 0.25, 0.0, 0.125, 0.0, 0.0625, 0.0]);
}

#[test]
fn written_delay_goes_on_with_the_delayed_sample() {
    let args = effect_parser::parse_effect_spec("delay:mix=0.5:feedback=0.5:time=1000")
        .ok()
        .unwrap()
        .arguments;
    let mut b = buffer(2, 1, &[1.0, 0.0, 0.0, 0.0]);
    assert_eq!(delay(&mut b, &args, Some(1.0_f32.to_bits()), &Native), Ok(None));
    assert_eq!(floats(&b), vec![1.0, 0.0, 0.5, 0.0, 0.25, 0.0]);
}

#[test]
fn tail_ends_at_or_below_the_threshold() {
    let mut input: Vec<f32> = Vec::new();
    let mut seed: u32 = 99;
    for _ in 0..2000 {
        seed = seed.wrapping_mul(1664525).wrapping_add(1013904223);
        input.push(((seed >> 8) as f32 / (1 << 24) as f32) * 2.0 - 1.0);
    }
    for fb in [0.3_f32, 0.7, 0.9] {
        let mut b = buffer(8000, 1, &input);
        assert_eq!(
            Delay.apply_effect(&mut b, &delay_arguments(1.0, fb, 5.0), &None, &Native),
            Ok(())
        );
        let out = floats(&b);
        let slots = 40;
        assert!(out.len() > input.len() + slots);
        let due: f64 = out[out.len() - slots..]
            .iter()
            .map(|v| (*v * fb) as f64 * (*v * fb) as f64)
            .sum();
        assert!((due / slots as f64).sqrt() <= 0.0001 * 1.001, "feedback {}", fb);
    }
}

#[test]
fn delay_agrees_with_the_plain_loop() {
    let mut input: Vec<f32> = Vec::new();
    let mut seed: u32 = 12345;
    for _ in 0..3001 * 2 {
        seed = seed.wrapping_mul(1664525).wrapping_add(1013904223);
        input.push(((seed >> 8) as f32 / (1 << 24) as f32) * 2.0 - 1.0);
    }
    for (mix, fb, time, tail) in [
        (0.5_f32, 0.5_f32, 10.0_f32, None),
        (1.5, 0.0, 3.0, None),
        (0.7, 0.8, 1.0, None),
        (0.3, 0.99, 2.0, None),
        (0.5, 0.5, 10.0, Some(1.0_f32)),
        (4.0, 1.0, 5.0, Some(1.9)),
        (0.5, 1.5, 7.5, Some(0.0)),
        (0.5, 0.5, 10.0, Some(-3.0)),
    ] {
        let mut b = buffer(8000, 2, &input);
        let r = Delay.apply_effect(
            &mut b,
            &delay_arguments(mix, fb, time),
            &tail.map(|t| t.to_bits()),
            &Native,
        );
        assert_eq!(r, Ok(()));
        let want = reference_delay(&input, 8000, 2, mix, fb, time, tail);
        assert_eq!(b.samples.len(), want.len(), "{:?}", (mix, fb, time, tail));
        assert_eq!(b.samples, bits(&want), "{:?}", (mix, fb, time, tail));
        assert_eq!(b.samples.len() % 2, 0);
    }
}

#[test]
fn fixed_tail_has_the_length_asked_for() {
    for fb in [0.0_f32, 0.5, 1.0, 2.0] {
        let mut b = buffer(1000, 2, &[0.25; 64]);
        let r = Delay.apply_effect(
            &mut b,
            &delay_arguments(0.5, fb, 4.0),
            &Some(3.0_f32.to_bits()),
            &Native,
        );
        assert_eq!(r, Ok(()));
        assert_eq!(b.samples.len(), 64 + 2 * 3 * 1000);
    }
    let mut b = buffer(1000, 2, &[0.25; 64]);
    let half = Some(1.5_f32.to_bits());
    assert_eq!(Delay.apply_effect(&mut b, &delay_arguments(0.5, 0.5, 4.0), &half, &Native), Ok(()));
    assert_eq!(b.samples.len(), 64 + 2 * 1500);
}

#[test]
fn without_feedback_a_silent_line_gives_no_tail() {
    let mut input = vec![0.0_f32; 100];
    input[3] = 0.5;
    let mut b = buffer(1000, 1, &input);
    let r = Delay.apply_effect(&mut b, &delay_arguments(1.0, 0.0, 10.0), &None, &Native);
    assert_eq!(r, Ok(()));
    assert_eq!(b.samples.len(), 100);
    assert_eq!(f(b.samples[3]), 0.5);
    assert_eq!(f(b.samples[13]), 0.5);
}

#[test]
fn without_feedback_the_tail_ends_within_one_turn_of_the_line() {
    let mut b = buffer(1000, 1, &[0.5; 100]);
    let r = Delay.apply_effect(&mut b, &delay_arguments(1.0, 0.0, 10.0), &None, &Native);
    assert_eq!(r, Ok(()));
    assert!(b.samples.len() <= 100 + 10);
    assert!(b.samples.len() > 100);
}

#[test]
fn tail_samples_are_clamped() {
    let mut b = buffer(1000, 1, &[0.9; 20]);
    let r = Delay.apply_effect(
        &mut b,
        &delay_arguments(8.0, 1.0, 2.0),
        &Some(1.0_f32.to_bits()),
        &Native,
    );
    assert_eq!(r, Ok(()));
    assert!(f(b.samples[5]) > 1.0);
    for w in &b.samples[20..] {
        assert_eq!(f(*w), 1.0);
    }
}

#[test]
fn delay_refuses_and_leaves_the_buffer() {
    let input = [0.5_f32; 10];
    let mut b = buffer(44100, 2, &input);
    assert_eq!(
        Delay.apply_effect(&mut b, &delay_arguments(0.5, 1.0, 10.0), &None, &Native),
        Err(ProcessingError::Rejected(ValidationError::TailRequired))
    );
    assert_eq!(
        Delay.apply_effect(&mut b, &arguments(&[("mix", 0.5)]), &None, &Native),
        Err(ProcessingError::Rejected(ValidationError::Missing {
            effect: EffectKind::Delay,
            argument: Argument::Feedback
        }))
    );
    assert_eq!(b.samples, bits(&input));
    let mut slow = buffer(100, 1, &input);
    assert_eq!(
        Delay.apply_effect(&mut slow, &delay_arguments(0.5, 0.5, 1.0), &None, &Native),
        Err(ProcessingError::EmptyDelayLine)
    );
    assert_eq!(
        Delay.apply_effect(&mut slow, &delay_arguments(0.5, 0.5, 1.0e10), &None, &Native),
        Err(ProcessingError::DelayLineTooLong)
    );
    assert_eq!(
        Delay.apply_effect(&mut slow, &delay_arguments(0.5, 0.5, f32::NAN), &None, &Native),
        Err(ProcessingError::EmptyDelayLine)
    );
    assert_eq!(slow.samples, bits(&input));
    if usize::BITS <= 32 {
        let mut huge = buffer(48000, 2, &[]);
        assert_eq!(
            Delay.apply_effect(
                &mut huge,
                &delay_arguments(0.5, 0.5, 1.0),
                &Some(4.2e9_f32.to_bits()),
                &Native
            ),
            Err(ProcessingError::StreamTooLong)
        );
        assert!(huge.samples.is_empty());
    }
    let mut odd = AudioBuffer { format: format(44100, 2), samples: bits(&[0.5; 3]) };
    assert_eq!(
        Delay.apply_effect(&mut odd, &delay_arguments(0.5, 0.5, 10.0), &None, &Native),
        Err(ProcessingError::MalformedBuffer)
    );
    assert_eq!(ProcessingError::EmptyDelayLine.message(), "delay time is shorter than one sample");
}

#[test]
fn padding_fills_the_last_frame() {
    let mut v = vec![1_u32, 2, 3];
    pad_to_frames(&mut v, 2);
    assert_eq!(v, vec![1, 2, 3, 0]);
    pad_to_frames(&mut v, 2);
    assert_eq!(v, vec![1, 2, 3, 0]);
    pad_to_frames(&mut v, 3);
    assert_eq!(v, vec![1, 2, 3, 0, 0, 0]);
    pad_to_frames(&mut v, 1);
    assert_eq!(v.len(), 6);
    let mut e: Vec<u32> = Vec::new();
    pad_to_frames(&mut e, 5);
    assert_eq!(e.len(), 0);
}

#[test]
fn gain_of_zero_decibels_changes_nothing() {
    let input = [0.0_f32, 0.25, -0.5, 1.5, -0.0];
    let mut b = buffer(44100, 1, &input);
    let args = effect_parser::parse_effect_spec("gain:db=0").ok().unwrap().arguments;
    assert_eq!(dynamics::gain(&mut b, &args, &Native), Ok(()));
    assert_eq!(b.samples, bits(&input));
}

#[test]
fn gain_of_twenty_decibels_is_a_factor_of_ten() {
    let input = [0.0_f32, 0.25, -0.5, 1.5];
    let mut b = buffer(44100, 1, &input);
    let args = effect_parser::parse_effect_spec("gain:db=20").ok().unwrap().arguments;
    assert_eq!(dynamics::gain(&mut b, &args, &Native), Ok(()));
    assert_eq!(floats(&b), vec![0.0, 2.5, -5.0, 15.0]);
}

#[test]
fn gain_argument_errors() {
    let input = [0.25_f32, 0.5];
    let mut b = buffer(44100, 1, &input);
    let args = effect_parser::parse_effect_spec("gain").ok().unwrap().arguments;
    assert_eq!(dynamics::gain(&mut b, &args, &Native), Err(DynamicsError::NotProvided));
    assert_eq!(dynamics::distortion(&mut b, &args, &Native), Err(DynamicsError::NotProvided));
    let args = effect_parser::parse_effect_spec("gain:db").ok().unwrap().arguments;
    assert_eq!(dynamics::gain(&mut b, &args, &Native), Err(DynamicsError::Empty));
    let args = effect_parser::parse_effect_spec("gain:db=loud").ok().unwrap().arguments;
    let e = dynamics::gain(&mut b, &args, &Native).err().unwrap();
    assert_eq!(e, DynamicsError::NotANumber { value: "loud".to_string() });
    assert_eq!(e.message(), "failed to parse value loud");
    assert_eq!(DynamicsError::NotProvided.message(), "required gain parameter 'db' not provided");
    assert_eq!(DynamicsError::Empty.message(), "required gain parameter 'db' is empty");
    assert_eq!(b.samples, bits(&input));
}

#[test]
fn distortion_stays_inside_the_unit_interval() {
    let input = [0.0_f32, 0.001, -0.001, 0.5, -0.5, 1.0, 3.0, -3.0, 1.0e-6];
    let mut b = buffer(44100, 1, &input);
    let args = effect_parser::parse_effect_spec("softclip:db=6").ok().unwrap().arguments;
    assert_eq!(dynamics::distortion(&mut b, &args, &Native), Ok(()));
    let factor = 10.0_f32.powf(6.0 / 20.0);
    let out = floats(&b);
    assert_eq!(out.len(), input.len());
    for (x, y) in input.iter().zip(out.iter()) {
        assert!(-1.0 < *y && *y < 1.0);
        assert!((*y - (x * factor).tanh()).abs() <= 1.0e-6);
    }
    assert!((out[8] - factor * 1.0e-6).abs() < 1.0e-12);
}

#[test]
fn silence_through_gain_and_softclip_stays_silence() {
    let input = vec![0.0_f32; 44100];
    let mut b = buffer(44100, 1, &input);
    let chain = fiis::parse_utils::parse_effects(&vec![
        "gain:db=6".to_string(),
        "softclip:db=0".to_string(),
    ])
    .ok()
    .unwrap();
    assert_eq!(chain[0].name(), "gain");
    assert_eq!(dynamics::gain(&mut b, &chain[0].arguments, &Native), Ok(()));
    assert_eq!(chain[1].name(), "softclip");
    assert_eq!(dynamics::distortion(&mut b, &chain[1].arguments, &Native), Ok(()));
    assert_eq!(b.samples.len(), 44100);
    assert!(b.samples.iter().all(|w| *w == 0));
}

#[test]
fn peak_is_the_greatest_magnitude() {
    assert_eq!(dynamics::peak(&bits(&[])), 0);
    assert_eq!(dynamics::peak(&bits(&[0.0, -0.0])), 0);
    assert_eq!(f(dynamics::peak(&bits(&[0.25, -0.75, 0.5, f32::NAN]))), 0.75);
    assert_eq!(f(dynamics::peak(&bits(&[f32::NAN, -f32::NAN]))), 0.0);
    assert_eq!(f(dynamics::peak(&bits(&[1.0, f32::NEG_INFINITY]))), f32::INFINITY);
}

#[test]
fn normalize_brings_the_peak_to_the_ceiling() {
    let mut v = bits(&[0.1, -0.4, 0.2, 0.0]);
    dynamics::normalize(&mut v, 1.0_f32.to_bits(), &Native);
    let out: Vec<f32> = v.iter().map(|w| f(*w)).collect();
    let peak = out.iter().fold(0.0_f32, |m, x| m.max(x.abs()));
    assert!((peak - 1.0).abs() < 1.0e-6);
    assert_eq!(out[1], -0.4 * (1.0 / 0.4));
    assert_eq!(out[3], 0.0);
    let mut gentle = bits(&[0.1, -0.4]);
    dynamics::normalize(&mut gentle, 0.5_f32.to_bits(), &Native);
    assert!((f(gentle[1]) + 0.5).abs() < 1.0e-6);
}

#[test]
fn normalize_leaves_silence() {
    let mut v = bits(&[0.0, -0.0, 0.0]);
    let before = v.clone();
    dynamics::normalize(&mut v, 1.0_f32.to_bits(), &Native);
    assert_eq!(v, before);
    let mut e: Vec<u32> = Vec::new();
    dynamics::normalize(&mut e, 1.0_f32.to_bits(), &Native);
    assert!(e.is_empty());
}

#[test]
fn eq_validation() {
    let missing = |argument| ValidationError::Missing { effect: EffectKind::EqBand, argument };
    let all = |freq: f32, db: f32, q: f32| arguments(&[("freq", freq), ("db", db), ("q", q)]);
    assert_eq!(EqBand.validate_arguments(&arguments(&[]), &None), Err(missing(Argument::Frequency)));
    assert_eq!(
        EqBand.validate_arguments(&arguments(&[("freq", 100.0)]), &None),
        Err(missing(Argument::Db))
    );
    assert_eq!(
        EqBand.validate_arguments(&arguments(&[("freq", 100.0), ("db", 1.0)]), &None),
        Err(missing(Argument::Q))
    );
    assert_eq!(EqBand.validate_arguments(&all(1000.0, -3.0, 0.7), &None), Ok(None));
    for bad in [0.0_f32, -1.0, f32::INFINITY, f32::NAN, -0.0] {
        assert_eq!(
            EqBand.validate_arguments(&all(bad, 3.0, 0.7), &None),
            Err(ValidationError::BadFrequency)
        );
        assert_eq!(
            EqBand.validate_arguments(&all(1000.0, 3.0, bad), &None),
            Err(ValidationError::BadQ)
        );
    }
    assert_eq!(
        EqBand.validate_arguments(&all(-1.0, 3.0, -1.0), &None),
        Err(ValidationError::BadFrequency)
    );
}

#[test]
fn eq_of_zero_decibels_passes_the_signal() {
    let mut input: Vec<f32> = Vec::new();
    for i in 0..512 {
        input.push((i as f32 * 0.37).sin() * 0.8);
    }
    let mut b = buffer(44100, 1, &input);
    let args = arguments(&[("freq", 1000.0), ("db", 0.0), ("q", 0.7)]);
    assert_eq!(EqBand.apply_effect(&mut b, &args, &None, &Native), Ok(()));
    let out = floats(&b);
    assert_eq!(out.len(), input.len());
    for (x, y) in input.iter().zip(out.iter()) {
        assert!((x - y).abs() < 1.0e-5);
    }
}

#[test]
fn eq_runs_one_filter_over_the_whole_stream() {
    let input: Vec<f32> = (0..64).map(|i| ((i * 7 % 13) as f32 - 6.0) / 8.0).collect();
    let mut b = buffer(44100, 2, &input);
    let args = arguments(&[("freq", 2000.0), ("db", 6.0), ("q", 1.5)]);
    assert_eq!(EqBand.apply_effect(&mut b, &args, &None, &Native), Ok(()));
    let fs = 44100.0_f64;
    let a = 10.0_f64.powf(6.0 / 40.0);
    let w0 = 2.0 * std::f64::consts::PI * (2000.0 / fs);
    let alpha = w0.sin() / (2.0 * 1.5);
    let (b0, b1, b2) = (1.0 + alpha * a, -2.0 * w0.cos(), 1.0 - alpha * a);
    let (a0, a1, a2) = (1.0 + alpha / a, -2.0 * w0.cos(), 1.0 - alpha / a);
    let (mut x1, mut x2, mut y1, mut y2) = (0.0_f64, 0.0_f64, 0.0_f64, 0.0_f64);
    let mut want: Vec<f32> = Vec::new();
    for s in &input {
        let x0 = *s as f64;
        let y0 = (b0 / a0) * x0 + (b1 / a0) * x1 + (b2 / a0) * x2 - (a1 / a0) * y1 - (a2 / a0) * y2;
        want.push(y0 as f32);
        x2 = x1;
        x1 = x0;
        y2 = y1;
        y1 = y0;
    }
    assert_eq!(b.samples, bits(&want));
}

#[test]
fn eq_refuses_and_leaves_the_buffer() {
    let input = [0.5_f32; 8];
    let mut b = buffer(44100, 2, &input);
    let args = arguments(&[("freq", 0.0), ("db", 6.0), ("q", 1.5)]);
    assert_eq!(
        EqBand.apply_effect(&mut b, &args, &None, &Native),
        Err(ProcessingError::Rejected(ValidationError::BadFrequency))
    );
    assert_eq!(b.samples, bits(&input));
}

fn entry(name: &str, pairs: &[(&str, f32)]) -> ChainEntry {
    ChainEntry { name: name.to_string(), arguments: arguments(pairs) }
}

fn texts(items: &[&str]) -> Vec<String> {
    items.iter().map(|s| s.to_string()).collect()
}

#[test]
fn registry_knows_the_effects_by_name() {
    let effects = standard_effects();
    assert_eq!(effects.len(), 8);
    for kind in [
        EffectKind::Delay,
        EffectKind::EqBand,
        EffectKind::BandPass,
        EffectKind::LowShelf,
        EffectKind::HighShelf,
        EffectKind::Gain,
        EffectKind::Softclip,
        EffectKind::Normalize,
    ] {
        assert_eq!(effects.get(kind.name()), Some(&kind));
    }
    assert_eq!(EffectKind::Delay.name(), "delay");
    assert_eq!(EffectKind::EqBand.name(), "eqband");
    assert_eq!(EffectKind::Gain.name(), "gain");
    assert_eq!(EffectKind::Softclip.name(), "softclip");
    assert_eq!(EffectKind::Normalize.name(), "normalize");
    assert_eq!(EffectKind::BandPass.name(), "bandpass");
    assert_eq!(EffectKind::LowShelf.name(), "lowshelf");
    assert_eq!(EffectKind::HighShelf.name(), "highshelf");
    assert_eq!(effects.get("reverb"), None);
    let mut again = standard_effects();
    add_effect(EffectKind::Gain, &mut again);
    assert_eq!(again.len(), 8);
    assert_eq!(again.get("gain"), Some(&EffectKind::Gain));
}

#[test]
fn argument_keys() {
    assert_eq!(Argument::Mix.key(), "mix");
    assert_eq!(Argument::Feedback.key(), "fb");
    assert_eq!(Argument::Time.key(), "time");
    assert_eq!(Argument::Db.key(), "db");
    assert_eq!(Argument::Frequency.key(), "freq");
    assert_eq!(Argument::Q.key(), "q");
}

#[test]
fn chain_validation_finds_the_first_bad_entry() {
    let effects = standard_effects();
    let good = vec![entry("gain", &[("db", 6.0)]), entry("normalize", &[])];
    assert_eq!(validate_chain(&good, &effects, &None), Ok(vec![None, None]));
    let warned = vec![entry("delay", &[("mix", 0.5), ("fb", 0.95), ("time", 10.0)])];
    assert_eq!(validate_chain(&warned, &effects, &None), Ok(vec![Some(Warning::LongTail)]));
    let unknown = vec![entry("gain", &[("db", 6.0)]), entry("reverb", &[]), entry("gain", &[])];
    let e = validate_chain(&unknown, &effects, &None).err().unwrap();
    assert_eq!(e, ChainError::UnknownEffect { name: "reverb".to_string() });
    assert_eq!(e.message(), "unknown effect 'reverb'");
    let invalid = vec![entry("gain", &[]), entry("reverb", &[])];
    let e = validate_chain(&invalid, &effects, &None).err().unwrap();
    assert_eq!(
        e,
        ChainError::Invalid {
            effect: EffectKind::Gain,
            error: ValidationError::Missing { effect: EffectKind::Gain, argument: Argument::Db }
        }
    );
    assert_eq!(e.message(), "gain -> missing gain argument 'db' (add 'db=x' to 'gain:')");
    let soft = vec![entry("softclip", &[("gain", 1.0)])];
    assert_eq!(
        validate_chain(&soft, &effects, &None).err().unwrap(),
        ChainError::Invalid {
            effect: EffectKind::Softclip,
            error: ValidationError::Missing { effect: EffectKind::Softclip, argument: Argument::Db }
        }
    );
    assert_eq!(validate_chain(&vec![], &effects, &None), Ok(vec![]));
}

#[test]
fn late_misconfiguration_leaves_the_buffer_untouched() {
    let effects = standard_effects();
    let input = [0.1_f32, 0.2, 0.3, 0.4];
    let mut b = buffer(44100, 2, &input);
    let chain = vec![
        entry("gain", &[("db", 20.0)]),
        entry("delay", &[("mix", 0.5), ("fb", 1.0), ("time", 10.0)]),
    ];
    let e = apply_chain(&mut b, &chain, &effects, &None, &Native).err().unwrap();
    assert_eq!(
        e,
        ChainError::Invalid { effect: EffectKind::Delay, error: ValidationError::TailRequired }
    );
    assert_eq!(b.samples, bits(&input));
}

#[test]
fn failure_while_applying_ends_the_chain() {
    let effects = standard_effects();
    let input = [0.1_f32, 0.2, 0.3, 0.4];
    let mut b = buffer(100, 2, &input);
    let chain = vec![
        entry("gain", &[("db", 20.0)]),
        entry("delay", &[("mix", 0.5), ("fb", 0.5), ("time", 1.0)]),
        entry("gain", &[("db", 20.0)]),
    ];
    let e = apply_chain(&mut b, &chain, &effects, &None, &Native).err().unwrap();
    assert_eq!(
        e,
        ChainError::Failed { effect: EffectKind::Delay, failure: ProcessingError::EmptyDelayLine }
    );
    assert_eq!(e.message(), "delay -> delay time is shorter than one sample");
    assert_eq!(floats(&b), vec![1.0, 2.0, 3.0, 4.0]);
}

#[test]
fn chain_applies_effects_in_order() {
    let effects = standard_effects();
    let mut b = buffer(44100, 1, &[0.1, -0.2, 0.05]);
    let chain = vec![entry("normalize", &[]), entry("gain", &[("db", 20.0)])];
    assert_eq!(apply_chain(&mut b, &chain, &effects, &None, &Native), Ok(vec![None, None]));
    let out = floats(&b);
    assert!((out[1] + 10.0).abs() < 1.0e-5);
    let mut c = buffer(44100, 1, &[0.1, -0.2, 0.05]);
    let chain = vec![entry("gain", &[("db", 20.0)]), entry("normalize", &[("db", -20.0)])];
    assert_eq!(apply_chain(&mut c, &chain, &effects, &None, &Native), Ok(vec![None, None]));
    let out = floats(&c);
    assert!((out[1] + 0.1).abs() < 1.0e-6);
    assert!((out[0] - 0.05).abs() < 1.0e-6);
}

#[test]
fn one_second_of_silence_through_gain_and_softclip() {
    let effects = standard_effects();
    let parsed = parse_utils::parse_effects(&texts(&["gain:db=6", "softclip:db=0"])).ok().unwrap();
    let chain = typed_chain(&parsed, &Native).ok().unwrap();
    assert_eq!(validate_chain(&chain, &effects, &None), Ok(vec![None, None]));
    let mut b = normalize_samples(
        SampleFormat {
            sample_rate: 44100,
            channels: 1,
            bits_per_sample: 16,
            encoding: SampleEncoding::Int,
        },
        RawSamples::Int16(vec![0; 44100]),
        &Native,
    )
    .ok()
    .unwrap();
    assert_eq!(apply_chain(&mut b, &chain, &effects, &None, &Native), Ok(vec![None, None]));
    assert_eq!(b.samples.len(), 44100);
    assert!(b.samples.iter().all(|w| f(*w) == 0.0));
    assert_eq!(quantize(&b, &Native), Ok((RawSamples::Int16(vec![0; 44100]), 0)));
}

#[test]
fn delay_chain_from_text_on_an_impulse() {
    let effects = standard_effects();
    let parsed = parse_utils::parse_effects(&texts(&["delay:mix=0.5:fb=0.5:time=10"])).ok().unwrap();
    let chain = typed_chain(&parsed, &Native).ok().unwrap();
    let mut input = vec![0.0_f32; 44100];
    input[0] = 1.0;
    let mut b = buffer(44100, 1, &input);
    assert_eq!(apply_chain(&mut b, &chain, &effects, &None, &Native), Ok(vec![None]));
    assert_eq!(f(b.samples[0]), 1.0);
    assert_eq!(f(b.samples[441]), 0.5);
    assert_eq!(f(b.samples[882]), 0.25);
    assert_eq!(f(b.samples[441 * 7]), 0.0078125);
    assert!(b.wf_for_test());
}

trait WholeFrames {
    fn wf_for_test(&self) -> bool;
}

impl WholeFrames for AudioBuffer {
    fn wf_for_test(&self) -> bool {
        self.is_wf() && self.frames() * self.format.channels as usize == self.samples.len()
    }
}

#[test]
fn typed_entry_reads_the_numbers_of_known_arguments() {
    let parsed = effect_parser::parse_effect_spec("Delay:mix=0.5:FB=.25:time=1e1:wet:colour=blue")
        .ok()
        .unwrap();
    let typed = typed_entry(&parsed, &Native).ok().unwrap();
    assert_eq!(typed.name, "delay");
    assert_eq!(typed.arguments.get("mix"), Some(0.5_f32.to_bits()));
    assert_eq!(typed.arguments.get("fb"), Some(0.25_f32.to_bits()));
    assert_eq!(typed.arguments.get("time"), Some(10.0_f32.to_bits()));
    assert_eq!(typed.arguments.get("db"), None);
    assert_eq!(typed.arguments.get("wet"), None);
    assert_eq!(typed.arguments.get("colour"), None);
    assert_eq!(typed.arguments.values.len(), 3);
}

#[test]
fn typed_entry_reports_the_first_fault() {
    let bad = |argument: &str, effect: &str, fault| ParseError::BadNumber {
        argument: argument.to_string(),
        effect: effect.to_string(),
        fault,
    };
    let parsed = effect_parser::parse_effect_spec("eq:q=:freq=high:db").ok().unwrap();
    assert_eq!(
        typed_entry(&parsed, &Native).err(),
        Some(bad("freq", "eq", LiteralError::Invalid))
    );
    let parsed = effect_parser::parse_effect_spec("eq:q=:freq=2e3:db").ok().unwrap();
    assert_eq!(typed_entry(&parsed, &Native).err(), Some(bad("q", "eq", LiteralError::Empty)));
    let parsed = effect_parser::parse_effects(&texts(&["gain:db=1", "Gain:db=x", "gain:db="]))
        .ok()
        .unwrap();
    let e = typed_chain(&parsed, &Native).err().unwrap();
    assert_eq!(e, bad("db", "gain", LiteralError::Invalid));
    assert_eq!(e.message(), "invalid float literal for argument 'db' of effect 'gain'");
}

#[test]
fn layouts() {
    let with = |bits_per_sample, encoding| SampleFormat {
        sample_rate: 44100,
        channels: 2,
        bits_per_sample,
        encoding,
    };
    assert_eq!(sample_layout(&with(16, SampleEncoding::Int)), Some(SampleLayout::Int16));
    assert_eq!(sample_layout(&with(16, SampleEncoding::Float)), Some(SampleLayout::Int16));
    assert_eq!(sample_layout(&with(32, SampleEncoding::Int)), Some(SampleLayout::Int32));
    assert_eq!(sample_layout(&with(32, SampleEncoding::Float)), Some(SampleLayout::Float32));
    assert_eq!(sample_layout(&with(8, SampleEncoding::Int)), None);
    assert_eq!(sample_layout(&with(24, SampleEncoding::Int)), None);
    assert_eq!(sample_layout(&with(64, SampleEncoding::Float)), None);
}

#[test]
fn decoding_refuses_what_it_cannot_take() {
    let with = |channels, bits_per_sample, encoding| SampleFormat {
        sample_rate: 44100,
        channels,
        bits_per_sample,
        encoding,
    };
    let e = normalize_samples(with(2, 24, SampleEncoding::Int), RawSamples::Int32(vec![]), &Native);
    assert_eq!(e.err(), Some(DecodeError::Unsupported));
    assert_eq!(DecodeError::Unsupported.message(), "unsupported .wav format");
    let e = normalize_samples(with(2, 16, SampleEncoding::Int), RawSamples::Int32(vec![]), &Native);
    assert_eq!(e.err(), Some(DecodeError::WrongSamples));
    let e = normalize_samples(with(2, 32, SampleEncoding::Int), RawSamples::Float32(vec![]), &Native);
    assert_eq!(e.err(), Some(DecodeError::WrongSamples));
    let e = normalize_samples(with(2, 16, SampleEncoding::Int), RawSamples::Int16(vec![1, 2, 3]), &Native);
    assert_eq!(e.err(), Some(DecodeError::Malformed));
    let e = normalize_samples(with(0, 16, SampleEncoding::Int), RawSamples::Int16(vec![]), &Native);
    assert_eq!(e.err(), Some(DecodeError::Malformed));
    let zero_rate = SampleFormat {
        sample_rate: 0,
        channels: 1,
        bits_per_sample: 16,
        encoding: SampleEncoding::Int,
    };
    assert_eq!(
        normalize_samples(zero_rate, RawSamples::Int16(vec![]), &Native).err(),
        Some(DecodeError::Malformed)
    );
}

#[test]
fn decoding_scales_integers_to_the_unit_interval() {
    let fmt = SampleFormat {
        sample_rate: 8000,
        channels: 1,
        bits_per_sample: 16,
        encoding: SampleEncoding::Int,
    };
    let b = normalize_samples(fmt, RawSamples::Int16(vec![0, 32767, -32767, 16384]), &Native)
        .ok()
        .unwrap();
    assert_eq!(b.format, fmt);
    assert_eq!(floats(&b), vec![0.0, 1.0, -1.0, 16384.0 / 32767.0]);
    let fmt32 = SampleFormat { bits_per_sample: 32, ..fmt };
    let b = normalize_samples(fmt32, RawSamples::Int32(vec![0, i32::MAX, i32::MIN]), &Native)
        .ok()
        .unwrap();
    assert_eq!(floats(&b), vec![0.0, 1.0, -1.0]);
}

#[test]
fn round_trip_stays_within_one_step() {
    let fmt = SampleFormat {
        sample_rate: 8000,
        channels: 1,
        bits_per_sample: 16,
        encoding: SampleEncoding::Int,
    };
    let all: Vec<i16> = (i16::MIN..=i16::MAX).collect();
    let b = normalize_samples(fmt, RawSamples::Int16(all.clone()), &Native).ok().unwrap();
    match quantize(&b, &Native) {
        Ok((RawSamples::Int16(back), clipped)) => {
            assert_eq!(back.len(), all.len());
            for (a, z) in all.iter().zip(back.iter()) {
                assert!((*a as i32 - *z as i32).abs() <= 1, "{} {}", a, z);
            }
            assert_eq!(clipped, 1);
        }
        other => panic!("{:?}", other),
    }
    let fmt32 = SampleFormat { bits_per_sample: 32, ..fmt };
    let some: Vec<i32> = vec![0, 1, -1, 255, 1 << 20, -(1 << 20), i32::MAX, i32::MIN + 1, 123456789];
    let b = normalize_samples(fmt32, RawSamples::Int32(some.clone()), &Native).ok().unwrap();
    match quantize(&b, &Native) {
        Ok((RawSamples::Int32(back), _)) => {
            for (a, z) in some.iter().zip(back.iter()) {
                let step = ((*a as i64).abs() >> 23).max(1);
                assert!((*a as i64 - *z as i64).abs() <= step, "{} {}", a, z);
            }
        }
        other => panic!("{:?}", other),
    }
    let floating = SampleFormat { bits_per_sample: 32, encoding: SampleEncoding::Float, ..fmt };
    let words = bits(&[0.0, -0.0, 0.5, 1.5, f32::NAN, f32::MIN_POSITIVE, -3.25]);
    let b = normalize_samples(floating, RawSamples::Float32(words.clone()), &Native).ok().unwrap();
    assert_eq!(quantize(&b, &Native), Ok((RawSamples::Float32(words), 2)));
}

#[test]
fn clipping_counts_samples_beyond_full_scale() {
    assert_eq!(clip_count(&bits(&[])), 0);
    assert_eq!(clip_count(&bits(&[0.0, 1.0, -1.0, 0.999])), 0);
    assert_eq!(
        clip_count(&bits(&[1.0000001, -1.0000001, 2.0, f32::INFINITY, f32::NEG_INFINITY, f32::NAN])),
        5
    );
    let unsupported = AudioBuffer {
        format: SampleFormat {
            sample_rate: 8000,
            channels: 1,
            bits_per_sample: 8,
            encoding: SampleEncoding::Int,
        },
        samples: vec![],
    };
    assert_eq!(quantize(&unsupported, &Native), Err(EncodeError::Unsupported));
    assert_eq!(EncodeError::Unsupported.message(), "cannot encode unsupported format");
}

#[test]
fn delay_with_written_arguments() {
    let input = [0.5_f32; 40];
    let args = effect_parser::parse_effect_spec("delay:mix=0.5:feedback=0.5:time=2")
        .ok()
        .unwrap()
        .arguments;
    let mut b = buffer(8000, 2, &input);
    assert_eq!(delay(&mut b, &args, None, &Native), Ok(None));
    assert_eq!(b.samples, bits(&reference_delay(&input, 8000, 2, 0.5, 0.5, 2.0, None)));
    let near = effect_parser::parse_effect_spec("delay:mix=0.5:feedback=0.95:time=2")
        .ok()
        .unwrap()
        .arguments;
    let mut b = buffer(8000, 2, &input);
    assert_eq!(delay(&mut b, &near, None, &Native), Ok(Some(Warning::LongTail)));
}

#[test]
fn delay_with_written_arguments_refuses() {
    let input = [0.5_f32; 40];
    let mut b = buffer(8000, 2, &input);
    let parse = |text: &str| effect_parser::parse_effect_spec(text).ok().unwrap().arguments;
    assert_eq!(
        delay(&mut b, &parse("delay:feedback=0.5:time=2"), None, &Native),
        Err(DelayError::Missing(Argument::Mix))
    );
    assert_eq!(
        delay(&mut b, &parse("delay:mix=1:fb=0.5:time=2"), None, &Native),
        Err(DelayError::Missing(Argument::Feedback))
    );
    assert_eq!(
        delay(&mut b, &parse("delay:mix=1:feedback=0.5:time"), None, &Native),
        Err(DelayError::Missing(Argument::Time))
    );
    assert_eq!(
        delay(&mut b, &parse("delay:mix=1:feedback=half:time=x"), None, &Native),
        Err(DelayError::Invalid(Argument::Feedback))
    );
    assert_eq!(
        delay(&mut b, &parse("delay:mix=1:feedback=1:time=2"), None, &Native),
        Err(DelayError::Refused(ProcessingError::Rejected(ValidationError::TailRequired)))
    );
    assert_eq!(b.samples, bits(&input));
    assert_eq!(delay(&mut b, &parse("delay:mix=1:feedback=1:time=2"), Some(0), &Native), Ok(None));
}

#[test]
fn validation_messages_name_effect_and_argument() {
    assert_eq!(ValidationError::TimeTooShort.message(), "delay time must be >= 1");
    assert_eq!(ValidationError::NegativeMix.message(), "delay mix must be >= 0");
    assert_eq!(ValidationError::NegativeFeedback.message(), "delay feedback must be >= 0");
    assert!(ValidationError::TailRequired.message().contains("tail length"));
    assert_eq!(ValidationError::BadFrequency.message(), "filter frequency must be a positive number");
    assert_eq!(ValidationError::BadQ.message(), "filter q must be a positive number");
    assert_eq!(
        ValidationError::Missing { effect: EffectKind::EqBand, argument: Argument::Q }.message(),
        "missing eqband argument 'q' (add 'q=x' to 'eqband:')"
    );
    assert_eq!(
        ProcessingError::Rejected(ValidationError::TimeTooShort).message(),
        "delay time must be >= 1"
    );
    assert_eq!(ProcessingError::DelayLineTooLong.message(), "delay time is too long");
    assert_eq!(ProcessingError::StreamTooLong.message(), "the stream with its tail is too long");
    assert_eq!(
        ProcessingError::MalformedBuffer.message(),
        "the sample stream does not hold whole frames"
    );
}

#[test]
fn buffers_hold_whole_frames() {
    let fmt = format(44100, 2);
    assert!(AudioBuffer::new(fmt, vec![0; 4]).is_some());
    assert!(AudioBuffer::new(fmt, vec![0; 3]).is_none());
    assert!(AudioBuffer::new(format(0, 2), vec![]).is_none());
    assert!(AudioBuffer::new(format(44100, 0), vec![]).is_none());
    let eight = SampleFormat { bits_per_sample: 8, ..fmt };
    assert!(AudioBuffer::new(eight, vec![]).is_none());
    assert_eq!(AudioBuffer::new(fmt, vec![0; 6]).unwrap_or_else(|| panic!()).frames(), 3);
}

#[test]
fn comparisons_agree_with_the_values() {
    let values = [
        0.0_f32,
        -0.0,
        1.0,
        -1.0,
        0.9,
        0.5,
        -0.5,
        f32::MIN_POSITIVE,
        -f32::MIN_POSITIVE,
        1.0e-45,
        f32::MAX,
        f32::MIN,
        f32::INFINITY,
        f32::NEG_INFINITY,
        f32::NAN,
        -f32::NAN,
        1.0000001,
        0.99999994,
    ];
    for a in values {
        assert_eq!(f(ieee::abs32(a.to_bits())).to_bits(), a.abs().to_bits());
        assert_eq!(ieee::nan32(a.to_bits()), a.is_nan());
        assert_eq!(ieee::finite32(a.to_bits()), a.is_finite());
        assert_eq!(ieee::clips32(a.to_bits()), a.abs() > 1.0);
        assert_eq!(ieee::clamp32(a.to_bits()), a.clamp(-1.0, 1.0).to_bits());
        let wide = a as f64;
        assert_eq!(ieee::nan64(wide.to_bits()), wide.is_nan());
        assert_eq!(ieee::abs64(wide.to_bits()), wide.abs().to_bits());
        for b in values {
            assert_eq!(ieee::less32(a.to_bits(), b.to_bits()), a < b, "{} < {}", a, b);
            assert_eq!(ieee::less_eq32(a.to_bits(), b.to_bits()), a <= b, "{} <= {}", a, b);
            let (x, y) = (a as f64, b as f64);
            assert_eq!(ieee::less64(x.to_bits(), y.to_bits()), x < y);
            assert_eq!(ieee::less_eq64(x.to_bits(), y.to_bits()), x <= y);
        }
    }
}

#[test]
fn filters_of_every_shape_run_through_the_chain() {
    let effects = standard_effects();
    let input: Vec<f32> = (0..256).map(|i| ((i * 5 % 17) as f32 - 8.0) / 10.0).collect();
    for (name, shape) in [
        ("eqband", FilterShape::Peaking),
        ("bandpass", FilterShape::BandPass),
        ("lowshelf", FilterShape::LowShelf),
        ("highshelf", FilterShape::HighShelf),
    ] {
        let mut b = buffer(44100, 1, &input);
        let chain = vec![entry(name, &[("freq", 1500.0), ("db", -4.0), ("q", 0.9)])];
        assert_eq!(apply_chain(&mut b, &chain, &effects, &None, &Native), Ok(vec![None]));
        let section = Native.section(
            shape,
            1500.0_f32.to_bits(),
            (-4.0_f32).to_bits(),
            0.9_f32.to_bits(),
            44100,
        );
        let mut h = History { x1: 0, x2: 0, y1: 0, y2: 0 };
        let mut want: Vec<u32> = Vec::new();
        for s in &input {
            let x0 = Native.widen(s.to_bits());
            let y0 = Native.filter(&section, x0, &h);
            want.push(Native.narrow(y0));
            h = History { x1: x0, x2: h.x1, y1: y0, y2: h.y1 };
        }
        assert_eq!(b.samples, want, "{}", name);
        assert!(b.samples != bits(&input), "{}", name);
        let missing = vec![entry(name, &[("freq", 1500.0), ("q", 0.9)])];
        let kind = *effects.get(name).unwrap();
        assert_eq!(
            validate_chain(&missing, &effects, &None).err().unwrap(),
            ChainError::Invalid {
                effect: kind,
                error: ValidationError::Missing { effect: kind, argument: Argument::Db }
            }
        );
    }
}

#[test]
fn shelves_at_zero_decibels_pass_the_signal() {
    let effects = standard_effects();
    let input: Vec<f32> = (0..256).map(|i| (i as f32 * 0.21).sin() * 0.7).collect();
    for name in ["lowshelf", "highshelf", "eqband"] {
        let mut b = buffer(44100, 1, &input);
        let chain = vec![entry(name, &[("freq", 800.0), ("db", 0.0), ("q", 0.7)])];
        assert_eq!(apply_chain(&mut b, &chain, &effects, &None, &Native), Ok(vec![None]));
        for (x, y) in input.iter().zip(floats(&b).iter()) {
            assert!((x - y).abs() < 1.0e-5, "{}", name);
        }
    }
}
