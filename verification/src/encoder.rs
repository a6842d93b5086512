//! From the samples of the engine to the samples of a file.
//!
//! The samples are brought back to the layout that the format of the buffer
//! announces, and those outside the range from -1 to 1 are counted: they clip.
//! Writing the file is not done here.
use crate::arithmetic::Arithmetic;
use crate::decoder::{
    decoded, layout_of, raw_layout, raw_len, sample_layout, RawSamples, SampleLayout,
};
use crate::ieee::{clips32, exceeds_unit32};
use crate::types::AudioBuffer;
use vstd::prelude::*;
use vstd::string::*;

verus! {

/// The number of samples whose absolute value is above 1.
pub open spec fn clipping(samples: Seq<u32>) -> nat
    decreases samples.len(),
{
    if samples.len() == 0 {
        0
    } else {
        clipping(samples.drop_last()) + if exceeds_unit32(samples.last()) {
            1nat
        } else {
            0nat
        }
    }
}

/// Counts the samples that clip.
pub fn clip_count(samples: &Vec<u32>) -> (count: usize)
    ensures
        count == clipping(samples@),
{
    let mut count: usize = 0;
    let mut i: usize = 0;
    proof {
        assert(samples@.take(0) =~= Seq::empty());
    }
    while i < samples.len()
        invariant
            i <= samples@.len(),
            count <= i,
            count == clipping(samples@.take(i as int)),
        decreases samples@.len() - i,
    {
        proof {
            assert(samples@.take(i + 1).drop_last() =~= samples@.take(i as int));
        }
        if clips32(samples[i]) {
            count += 1;
        }
        i += 1;
    }
    proof {
        assert(samples@.take(i as int) =~= samples@);
    }
    count
}

/// The raw samples `raw` are what the samples encode to.
pub open spec fn encoded<M: Arithmetic>(math: &M, samples: Seq<u32>, raw: RawSamples) -> bool {
    match raw {
        RawSamples::Int16(v) => v@.len() == samples.len() && forall|i: int|
            0 <= i < samples.len() ==> call_ensures(M::to_i16, (math, samples[i]), #[trigger] v@[i]),
        RawSamples::Int32(v) => v@.len() == samples.len() && forall|i: int|
            0 <= i < samples.len() ==> call_ensures(M::to_i32, (math, samples[i]), #[trigger] v@[i]),
        RawSamples::Float32(v) => v@ == samples,
    }
}

/// Floating-point samples come out of a buffer as they went in: to decode
/// them and to encode them again changes nothing.
pub proof fn lemma_float_round_trip<M: Arithmetic>(
    math: &M,
    raw: RawSamples,
    samples: Seq<u32>,
    back: RawSamples,
)
    requires
        raw is Float32,
        back is Float32,
        decoded(math, raw, samples),
        encoded(math, samples, back),
    ensures
        back->Float32_0@ == raw->Float32_0@,
{
}

/// Integer samples of 16 bits come out of a buffer within one step of what
/// went in, with an arithmetic whose two conversions are within one step of
/// each other.
pub proof fn lemma_int16_round_trip_within_a_step<M: Arithmetic>(
    math: &M,
    raw: RawSamples,
    samples: Seq<u32>,
    back: RawSamples,
)
    requires
        forall|r: i16, s: u32, b: i16|
            #![trigger call_ensures(M::from_i16, (math, r), s), call_ensures(M::to_i16, (math, s), b)]
            call_ensures(M::from_i16, (math, r), s) && call_ensures(M::to_i16, (math, s), b) ==> -1
                <= b - r <= 1,
        raw is Int16,
        back is Int16,
        decoded(math, raw, samples),
        encoded(math, samples, back),
    ensures
        back->Int16_0@.len() == raw->Int16_0@.len(),
        forall|i: int|
            0 <= i < raw->Int16_0@.len() ==> -1 <= (#[trigger] back->Int16_0@[i])
                - raw->Int16_0@[i] <= 1,
{
    let v = raw->Int16_0@;
    let w = back->Int16_0@;
    assert forall|i: int| 0 <= i < v.len() implies -1 <= (#[trigger] w[i]) - v[i] <= 1 by {
        assert(call_ensures(M::from_i16, (math, v[i]), samples[i]));
        assert(call_ensures(M::to_i16, (math, samples[i]), w[i]));
    }
}

/// To decode and to encode keeps the number of samples.
pub proof fn lemma_round_trip_length<M: Arithmetic>(
    math: &M,
    raw: RawSamples,
    samples: Seq<u32>,
    back: RawSamples,
)
    requires
        decoded(math, raw, samples),
        encoded(math, samples, back),
    ensures
        raw_len(back) == raw_len(raw),
{
}

/// Why the samples of a buffer cannot be encoded.
#[derive(Clone, Copy, Debug, PartialEq, Eq, Structural)]
pub enum EncodeError {
    /// The format has neither 16 nor 32 bits per sample.
    Unsupported,
}

impl EncodeError {
    /// The message of the error.
    pub fn message(&self) -> (r: String)
        ensures
            r@ == "cannot encode unsupported format"@,
    {
        String::from_str("cannot encode unsupported format")
    }
}

/// Brings the samples of a buffer to the layout of its format, and counts
/// those that clip. Fails where the format has no layout.
pub fn quantize<M: Arithmetic>(buffer: &AudioBuffer, math: &M) -> (r: Result<
    (RawSamples, usize),
    EncodeError,
>)
    ensures
        r is Ok <==> layout_of(buffer.format) is Some,
        r matches Ok((raw, clipped)) ==> {
            &&& layout_of(buffer.format) == Some(raw_layout(raw))
            &&& encoded(math, buffer.samples@, raw)
            &&& clipped == clipping(buffer.samples@)
        },
{
    let layout: SampleLayout = match sample_layout(&buffer.format) {
        Some(layout) => layout,
        None => {
            return Err(EncodeError::Unsupported);
        },
    };
    let clipped: usize = clip_count(&buffer.samples);
    let n: usize = buffer.samples.len();
    let raw: RawSamples = match layout {
        SampleLayout::Int16 => {
            let mut v: Vec<i16> = Vec::new();
            let mut i: usize = 0;
            while i < n
                invariant
                    n == buffer.samples@.len(),
                    i <= n,
                    v@.len() == i,
                    forall|k: int|
                        0 <= k < i ==> call_ensures(
                            M::to_i16,
                            (math, buffer.samples@[k]),
                            #[trigger] v@[k],
                        ),
                decreases n - i,
            {
                let q: i16 = math.to_i16(buffer.samples[i]);
                v.push(q);
                i += 1;
            }
            RawSamples::Int16(v)
        },
        SampleLayout::Int32 => {
            let mut v: Vec<i32> = Vec::new();
            let mut i: usize = 0;
            while i < n
                invariant
                    n == buffer.samples@.len(),
                    i <= n,
                    v@.len() == i,
                    forall|k: int|
                        0 <= k < i ==> call_ensures(
                            M::to_i32,
                            (math, buffer.samples@[k]),
                            #[trigger] v@[k],
                        ),
                decreases n - i,
            {
                let q: i32 = math.to_i32(buffer.samples[i]);
                v.push(q);
                i += 1;
            }
            RawSamples::Int32(v)
        },
        SampleLayout::Float32 => {
            let mut v: Vec<u32> = Vec::new();
            let mut i: usize = 0;
            while i < n
                invariant
                    n == buffer.samples@.len(),
                    i <= n,
                    v@ == buffer.samples@.take(i as int),
                decreases n - i,
            {
                v.push(buffer.samples[i]);
                proof {
                    assert(v@ =~= buffer.samples@.take(i + 1));
                }
                i += 1;
            }
            proof {
                assert(buffer.samples@.take(i as int) =~= buffer.samples@);
            }
            RawSamples::Float32(v)
        },
    };
    Ok((raw, clipped))
}

} // verus!
