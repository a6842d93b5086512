//! From the samples of a file to the samples of the engine.
//!
//! Integer samples are scaled to the range from -1 to 1; floating-point
//! samples are taken as they are. Reading the file is not done here.
use crate::arithmetic::Arithmetic;
use crate::types::{whole_frames, AudioBuffer, SampleEncoding, SampleFormat};
use vstd::prelude::*;
use vstd::string::*;

verus! {

/// How the samples of a file lie in it.
#[derive(Clone, Copy, Debug, PartialEq, Eq, Structural)]
pub enum SampleLayout {
    /// Signed integers of 16 bits.
    Int16,
    /// Signed integers of 32 bits.
    Int32,
    /// Binary32 floating-point numbers.
    Float32,
}

/// The samples of a file, as they lie in it. Floating-point samples are bit
/// patterns.
#[derive(Debug, PartialEq, Eq)]
pub enum RawSamples {
    Int16(Vec<i16>),
    Int32(Vec<i32>),
    Float32(Vec<u32>),
}

/// Why the samples of a file are refused.
#[derive(Clone, Copy, Debug, PartialEq, Eq, Structural)]
pub enum DecodeError {
    /// The file has neither 16 nor 32 bits per sample.
    Unsupported,
    /// The samples are not of the kind that the format announces.
    WrongSamples,
    /// The file announces no channel or a sample rate of zero, or its samples
    /// do not make whole frames.
    Malformed,
}

/// The layout of the samples of a format: 16 bits are integers whatever the
/// format says of the encoding; 32 bits are integers or floating-point
/// numbers. No other width has a layout.
pub open spec fn layout_of(format: SampleFormat) -> Option<SampleLayout> {
    if format.bits_per_sample == 16 {
        Some(SampleLayout::Int16)
    } else if format.bits_per_sample == 32 {
        match format.encoding {
            SampleEncoding::Int => Some(SampleLayout::Int32),
            SampleEncoding::Float => Some(SampleLayout::Float32),
        }
    } else {
        None
    }
}

/// The layout of raw samples.
pub open spec fn raw_layout(raw: RawSamples) -> SampleLayout {
    match raw {
        RawSamples::Int16(_) => SampleLayout::Int16,
        RawSamples::Int32(_) => SampleLayout::Int32,
        RawSamples::Float32(_) => SampleLayout::Float32,
    }
}

/// The number of raw samples.
pub open spec fn raw_len(raw: RawSamples) -> nat {
    match raw {
        RawSamples::Int16(v) => v@.len(),
        RawSamples::Int32(v) => v@.len(),
        RawSamples::Float32(v) => v@.len(),
    }
}

/// The message of a decode error.
pub open spec fn decode_message(e: DecodeError) -> Seq<char> {
    match e {
        DecodeError::Unsupported => "unsupported .wav format"@,
        DecodeError::WrongSamples => "the samples do not match the format"@,
        DecodeError::Malformed => "the file does not hold whole frames"@,
    }
}

impl DecodeError {
    /// The message of the error.
    pub fn message(&self) -> (r: String)
        ensures
            r@ == decode_message(*self),
    {
        match self {
            DecodeError::Unsupported => String::from_str("unsupported .wav format"),
            DecodeError::WrongSamples => String::from_str("the samples do not match the format"),
            DecodeError::Malformed => String::from_str("the file does not hold whole frames"),
        }
    }
}

/// Tells the layout of the samples of a format.
pub fn sample_layout(format: &SampleFormat) -> (r: Option<SampleLayout>)
    ensures
        r == layout_of(*format),
{
    if format.bits_per_sample == 16 {
        Some(SampleLayout::Int16)
    } else if format.bits_per_sample == 32 {
        match format.encoding {
            SampleEncoding::Int => Some(SampleLayout::Int32),
            SampleEncoding::Float => Some(SampleLayout::Float32),
        }
    } else {
        None
    }
}

/// The samples `samples` are what the raw samples decode to.
pub open spec fn decoded<M: Arithmetic>(math: &M, raw: RawSamples, samples: Seq<u32>) -> bool {
    match raw {
        RawSamples::Int16(v) => samples.len() == v@.len() && forall|i: int|
            0 <= i < v@.len() ==> call_ensures(M::from_i16, (math, v@[i]), #[trigger] samples[i]),
        RawSamples::Int32(v) => samples.len() == v@.len() && forall|i: int|
            0 <= i < v@.len() ==> call_ensures(M::from_i32, (math, v@[i]), #[trigger] samples[i]),
        RawSamples::Float32(v) => samples == v@,
    }
}

/// What `normalize_samples` refuses, and why. The tests are made in the order
/// in which they stand here.
pub open spec fn decode_check(format: SampleFormat, raw: RawSamples) -> Result<(), DecodeError> {
    if layout_of(format) is None {
        Err(DecodeError::Unsupported)
    } else if layout_of(format) != Some(raw_layout(raw)) {
        Err(DecodeError::WrongSamples)
    } else if !whole_frames(format, raw_len(raw)) {
        Err(DecodeError::Malformed)
    } else {
        Ok(())
    }
}

/// Makes the sample buffer of the samples of a file.
pub fn normalize_samples<M: Arithmetic>(format: SampleFormat, raw: RawSamples, math: &M) -> (r:
    Result<AudioBuffer, DecodeError>)
    ensures
        match r {
            Ok(buffer) => {
                &&& decode_check(format, raw) is Ok
                &&& buffer.wf()
                &&& buffer.format == format
                &&& decoded(math, raw, buffer.samples@)
            },
            Err(e) => decode_check(format, raw) == Err::<(), DecodeError>(e),
        },
{
    let layout: SampleLayout = match sample_layout(&format) {
        Some(layout) => layout,
        None => {
            return Err(DecodeError::Unsupported);
        },
    };
    let mut samples: Vec<u32> = Vec::new();
    match &raw {
        RawSamples::Int16(v) => {
            if !matches!(layout, SampleLayout::Int16) {
                return Err(DecodeError::WrongSamples);
            }
            let mut i: usize = 0;
            while i < v.len()
                invariant
                    i <= v@.len(),
                    samples@.len() == i,
                    forall|k: int|
                        0 <= k < i ==> call_ensures(
                            M::from_i16,
                            (math, v@[k]),
                            #[trigger] samples@[k],
                        ),
                decreases v@.len() - i,
            {
                let sample: u32 = math.from_i16(v[i]);
                samples.push(sample);
                i += 1;
            }
        },
        RawSamples::Int32(v) => {
            if !matches!(layout, SampleLayout::Int32) {
                return Err(DecodeError::WrongSamples);
            }
            let mut i: usize = 0;
            while i < v.len()
                invariant
                    i <= v@.len(),
                    samples@.len() == i,
                    forall|k: int|
                        0 <= k < i ==> call_ensures(
                            M::from_i32,
                            (math, v@[k]),
                            #[trigger] samples@[k],
                        ),
                decreases v@.len() - i,
            {
                let sample: u32 = math.from_i32(v[i]);
                samples.push(sample);
                i += 1;
            }
        },
        RawSamples::Float32(v) => {
            if !matches!(layout, SampleLayout::Float32) {
                return Err(DecodeError::WrongSamples);
            }
            let mut i: usize = 0;
            while i < v.len()
                invariant
                    i <= v@.len(),
                    samples@ == v@.take(i as int),
                decreases v@.len() - i,
            {
                samples.push(v[i]);
                proof {
                    assert(samples@ =~= v@.take(i + 1));
                }
                i += 1;
            }
            proof {
                assert(v@.take(i as int) =~= v@);
            }
        },
    }
    match AudioBuffer::new(format, samples) {
        Some(buffer) => Ok(buffer),
        None => Err(DecodeError::Malformed),
    }
}

} // verus!
