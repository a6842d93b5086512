//! The floating-point formulas that the effects are made of.
//!
//! The engine decides which formula is applied to which values, in what order,
//! and what becomes of the result. It does not compute a formula itself: it
//! sees a binary32 or binary64 value as a bit pattern only. The formulas are
//! the methods of `Arithmetic`, which the host of the engine implements on the
//! floating-point values themselves.
//!
//! No method has a contract, so nothing is assumed of an implementation. Where
//! a contract of the engine speaks of a value that a formula gave, it names the
//! call that gave it, as `call_ensures` of the method, its arguments and the
//! value.
use vstd::prelude::*;

verus! {

/// The shapes of a second-order filter section.
#[derive(Clone, Copy, Debug, PartialEq, Eq, Structural)]
pub enum FilterShape {
    /// Raises or lowers a band around the frequency.
    Peaking,
    /// Lets a band around the frequency pass.
    BandPass,
    /// Raises or lowers what is below the frequency.
    LowShelf,
    /// Raises or lowers what is above the frequency.
    HighShelf,
}

/// The coefficients of a second-order filter section, each divided by the
/// section's own `a0`, as binary64 bit patterns.
#[derive(Clone, Copy, Debug, PartialEq, Eq, Structural)]
pub struct Biquad {
    pub b0: u64,
    pub b1: u64,
    pub b2: u64,
    pub a1: u64,
    pub a2: u64,
}

/// The history of a second-order filter section: its two latest inputs and
/// its two latest outputs, the latest first, as binary64 bit patterns.
#[derive(Clone, Copy, Debug, PartialEq, Eq, Structural)]
pub struct History {
    pub x1: u64,
    pub x2: u64,
    pub y1: u64,
    pub y2: u64,
}

/// The formulas. A `u32` is the bit pattern of a binary32 value and a `u64`
/// that of a binary64 value, unless a method says otherwise.
pub trait Arithmetic {
    /// The binary32 value of a floating-point literal.
    fn number(&self, literal: &str) -> u32;

    /// The amplitude factor of a gain in decibels: `10^(db / 20)`.
    fn amplitude(&self, db: u32) -> u32;

    /// `a * b`.
    fn product(&self, a: u32, b: u32) -> u32;

    /// `a + b * c`.
    fn blend(&self, a: u32, b: u32, c: u32) -> u32;

    /// `a / b`.
    fn quotient(&self, a: u32, b: u32) -> u32;

    /// The hyperbolic tangent of `a * b`.
    fn saturate(&self, a: u32, b: u32) -> u32;

    /// The length of a delay of `time` milliseconds in samples, over all
    /// channels: `time / 1000 * sample_rate * channels`, rounded to a whole
    /// number. `sample_rate` and the result are plain numbers.
    fn delay_slots(&self, time: u32, sample_rate: u32, channels: u16) -> usize;

    /// The whole frames in a duration of `seconds` seconds at `sample_rate`
    /// frames per second: `seconds * sample_rate` rounded toward zero, and zero
    /// where that is negative or no number. `sample_rate` and the result are
    /// plain numbers.
    fn tail_frames(&self, seconds: u32, sample_rate: u32) -> u32;

    /// `sum + v * v`, where `sum` is binary64 and `v` binary32.
    fn add_square(&self, sum: u64, v: u32) -> u64;

    /// `sum - v * v`, where `sum` is binary64 and `v` binary32.
    fn sub_square(&self, sum: u64, v: u32) -> u64;

    /// The level of a delay line of `slots` samples whose squares sum up to
    /// `sum`: the square root of `sum / slots`.
    fn level(&self, sum: u64, slots: usize) -> u64;

    /// The coefficients of a filter section of the given shape at `frequency`
    /// with gain `db` and quality `q`, at `sample_rate` frames per second (a
    /// plain number), each divided by the section's `a0`.
    ///
    /// With `A = 10^(db / 40)`, `w = 2 * pi * frequency / sample_rate`,
    /// `c = cos(w)`, `alpha = sin(w) / (2 * q)` and `r = 2 * sqrt(A) * alpha`:
    ///
    /// - peaking: `b0 = 1 + alpha * A`, `b1 = -2 * c`, `b2 = 1 - alpha * A`,
    ///   `a0 = 1 + alpha / A`, `a1 = -2 * c`, `a2 = 1 - alpha / A`;
    /// - band-pass: `b0 = alpha`, `b1 = 0`, `b2 = -alpha`, `a0 = 1 + alpha`,
    ///   `a1 = -2 * c`, `a2 = 1 - alpha`;
    /// - low shelf: `b0 = A * ((A + 1) - (A - 1) * c + r)`,
    ///   `b1 = 2 * A * ((A - 1) - (A + 1) * c)`,
    ///   `b2 = A * ((A + 1) - (A - 1) * c - r)`, `a0 = (A + 1) + (A - 1) * c + r`,
    ///   `a1 = -2 * ((A - 1) + (A + 1) * c)`, `a2 = (A + 1) + (A - 1) * c - r`;
    /// - high shelf: `b0 = A * ((A + 1) + (A - 1) * c + r)`,
    ///   `b1 = -2 * A * ((A - 1) + (A + 1) * c)`,
    ///   `b2 = A * ((A + 1) + (A - 1) * c - r)`, `a0 = (A + 1) - (A - 1) * c + r`,
    ///   `a1 = 2 * ((A - 1) - (A + 1) * c)`, `a2 = (A + 1) - (A - 1) * c - r`.
    fn section(
        &self,
        shape: FilterShape,
        frequency: u32,
        db: u32,
        q: u32,
        sample_rate: u32,
    ) -> Biquad;

    /// The sample of a 16-bit integer sample: `raw / 32767`.
    fn from_i16(&self, raw: i16) -> u32;

    /// The sample of a 32-bit integer sample: `raw / 2147483647`.
    fn from_i32(&self, raw: i32) -> u32;

    /// The 16-bit integer sample of a sample: `sample * 32767`, rounded toward
    /// zero and kept within the range of the type; zero where the sample is no
    /// number.
    fn to_i16(&self, sample: u32) -> i16;

    /// The 32-bit integer sample of a sample: `sample * 2147483647`, rounded
    /// toward zero and kept within the range of the type; zero where the sample
    /// is no number.
    fn to_i32(&self, sample: u32) -> i32;

    /// The binary64 value of a binary32 value.
    fn widen(&self, x: u32) -> u64;

    /// The binary32 value nearest to a binary64 value.
    fn narrow(&self, y: u64) -> u32;

    /// One step of a filter section: `b0 * x0 + b1 * x1 + b2 * x2 - a1 * y1 -
    /// a2 * y2`.
    fn filter(&self, section: &Biquad, x0: u64, history: &History) -> u64;
}

} // verus!
