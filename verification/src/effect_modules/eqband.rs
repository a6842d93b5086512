//! The equalizer: second-order filter sections. The peaking band raises or
//! lowers the stream around one frequency; the band-pass and the two shelves
//! differ from it in their coefficients only.
//!
//! Arguments: `freq`, the center or corner frequency in hertz; `db`, the gain
//! in decibels; `q`, the quality, which sets the width of the band.
//!
//! One filter runs over the whole interleaved stream: the channels of a frame
//! share its history.
use crate::arithmetic::{Arithmetic, Biquad, FilterShape, History};
use crate::ieee::{finite32, is_finite32, less32, lt32, ZERO32};
use crate::types::{
    Argument, ArgumentSet, AudioBuffer, EffectKind, ProcessingError, SampleFormat,
    ValidationError, Warning,
};
use vstd::prelude::*;
use vstd::string::*;

verus! {

/// The peaking equalizer band.
#[derive(Clone, Copy, Debug, PartialEq, Eq, Structural)]
pub struct EqBand;

/// The value is a finite number above zero.
pub open spec fn positive(w: u32) -> bool {
    is_finite32(w) && lt32(ZERO32, w)
}

/// The effect of a filter shape.
pub open spec fn shape_kind(shape: FilterShape) -> EffectKind {
    match shape {
        FilterShape::Peaking => EffectKind::EqBand,
        FilterShape::BandPass => EffectKind::BandPass,
        FilterShape::LowShelf => EffectKind::LowShelf,
        FilterShape::HighShelf => EffectKind::HighShelf,
    }
}

/// What the validation of a filter answers. The three arguments have to be
/// there, and frequency and quality have to be finite numbers above zero.
/// These are tested in this order and the first that fails is reported.
pub open spec fn filter_check(shape: FilterShape, arguments: Map<Seq<char>, u32>) -> Result<
    Option<Warning>,
    ValidationError,
> {
    if !arguments.contains_key("freq"@) {
        Err(ValidationError::Missing { effect: shape_kind(shape), argument: Argument::Frequency })
    } else if !arguments.contains_key("db"@) {
        Err(ValidationError::Missing { effect: shape_kind(shape), argument: Argument::Db })
    } else if !arguments.contains_key("q"@) {
        Err(ValidationError::Missing { effect: shape_kind(shape), argument: Argument::Q })
    } else if !positive(arguments["freq"@]) {
        Err(ValidationError::BadFrequency)
    } else if !positive(arguments["q"@]) {
        Err(ValidationError::BadQ)
    } else {
        Ok(None)
    }
}

/// What the validation of the peaking band answers.
pub open spec fn eq_check(arguments: Map<Seq<char>, u32>) -> Result<
    Option<Warning>,
    ValidationError,
> {
    filter_check(FilterShape::Peaking, arguments)
}

/// The history of the filter before sample `i`: the two inputs and the two
/// outputs before it, and zero where the stream has not begun.
pub open spec fn history_at(inputs: Seq<u64>, outputs: Seq<u64>, i: int) -> History {
    History {
        x1: if i >= 1 {
            inputs[i - 1]
        } else {
            0
        },
        x2: if i >= 2 {
            inputs[i - 2]
        } else {
            0
        },
        y1: if i >= 1 {
            outputs[i - 1]
        } else {
            0
        },
        y2: if i >= 2 {
            outputs[i - 2]
        } else {
            0
        },
    }
}

/// What happened while a filter ran over a stream.
pub struct FilterRun {
    /// The coefficients of the filter.
    pub section: Biquad,
    /// The samples of the input as binary64 values.
    pub inputs: Seq<u64>,
    /// The samples of the output as binary64 values.
    pub outputs: Seq<u64>,
}

/// Sample `i`: the input is widened, the filter makes the output of it and of
/// its history, and the output is narrowed.
pub open spec fn filtered_at<M: Arithmetic>(
    math: &M,
    x: u32,
    y: u32,
    run: FilterRun,
    i: int,
) -> bool {
    &&& call_ensures(M::widen, (math, x), run.inputs[i])
    &&& call_ensures(
        M::filter,
        (math, &run.section, run.inputs[i], &history_at(run.inputs, run.outputs, i)),
        run.outputs[i],
    )
    &&& call_ensures(M::narrow, (math, run.outputs[i]), y)
}

/// `ys` is `xs` run through the filter `run.section`, from a history of
/// zeros.
pub open spec fn filtered<M: Arithmetic>(math: &M, xs: Seq<u32>, ys: Seq<u32>, run: FilterRun) -> bool {
    &&& ys.len() == xs.len()
    &&& run.inputs.len() == xs.len()
    &&& run.outputs.len() == xs.len()
    &&& forall|i: int| 0 <= i < xs.len() ==> #[trigger] filtered_at(math, xs[i], ys[i], run, i)
}

/// Runs a filter section over the samples, in place, from a history of zeros.
fn run_filter<M: Arithmetic>(samples: &mut Vec<u32>, section: &Biquad, math: &M) -> (run: Ghost<
    FilterRun,
>)
    ensures
        run@.section == *section,
        filtered(math, old(samples)@, final(samples)@, run@),
{
    let n: usize = samples.len();
    let ghost xs = samples@;
    let ghost mut run = FilterRun { section: *section, inputs: Seq::empty(), outputs: Seq::empty() };
    let mut history: History = History { x1: 0, x2: 0, y1: 0, y2: 0 };
    let mut i: usize = 0;
    while i < n
        invariant
            n == xs.len(),
            samples@.len() == n,
            i <= n,
            run.section == *section,
            run.inputs.len() == i,
            run.outputs.len() == i,
            history == history_at(run.inputs, run.outputs, i as int),
            forall|k: int| i <= k < n ==> samples@[k] == xs[k],
            forall|k: int| 0 <= k < i ==> #[trigger] filtered_at(math, xs[k], samples@[k], run, k),
        decreases n - i,
    {
        let ghost before = run;
        let ghost done = samples@;
        let x0: u64 = math.widen(samples[i]);
        let y0: u64 = math.filter(section, x0, &history);
        let y: u32 = math.narrow(y0);
        samples.set(i, y);
        proof {
            run = FilterRun {
                section: before.section,
                inputs: before.inputs.push(x0),
                outputs: before.outputs.push(y0),
            };
            assert(history_at(run.inputs, run.outputs, i as int) == history);
            assert forall|k: int| 0 <= k < i + 1 implies #[trigger] filtered_at(
                math,
                xs[k],
                samples@[k],
                run,
                k,
            ) by {
                if k < i {
                    assert(filtered_at(math, xs[k], done[k], before, k));
                    assert(history_at(run.inputs, run.outputs, k) == history_at(
                        before.inputs,
                        before.outputs,
                        k,
                    ));
                }
            }
        }
        history = History { x1: x0, x2: history.x1, y1: y0, y2: history.y1 };
        i += 1;
    }
    Ghost(run)
}

/// The stream `result` is what a filter of the given shape makes of the
/// stream `xs`: the arithmetic gives the coefficients for the shape, the
/// arguments and the sample rate, and the filter runs over the stream.
pub open spec fn filter_applied<M: Arithmetic>(
    math: &M,
    shape: FilterShape,
    format: SampleFormat,
    xs: Seq<u32>,
    arguments: Map<Seq<char>, u32>,
    result: Seq<u32>,
    run: FilterRun,
) -> bool {
    &&& call_ensures(
        M::section,
        (math, shape, arguments["freq"@], arguments["db"@], arguments["q"@], format.sample_rate),
        run.section,
    )
    &&& filtered(math, xs, result, run)
}

/// The stream `result` is what the peaking band makes of the stream `xs`.
pub open spec fn eq_applied<M: Arithmetic>(
    math: &M,
    format: SampleFormat,
    xs: Seq<u32>,
    arguments: Map<Seq<char>, u32>,
    result: Seq<u32>,
    run: FilterRun,
) -> bool {
    filter_applied(math, FilterShape::Peaking, format, xs, arguments, result, run)
}

/// Tells the effect of a filter shape.
pub fn kind_of_shape(shape: FilterShape) -> (r: EffectKind)
    ensures
        r == shape_kind(shape),
{
    match shape {
        FilterShape::Peaking => EffectKind::EqBand,
        FilterShape::BandPass => EffectKind::BandPass,
        FilterShape::LowShelf => EffectKind::LowShelf,
        FilterShape::HighShelf => EffectKind::HighShelf,
    }
}

/// Checks the arguments of a filter. Nothing is changed.
pub fn validate_filter(shape: FilterShape, arguments: &ArgumentSet) -> (r: Result<
    Option<Warning>,
    ValidationError,
>)
    ensures
        r == filter_check(shape, arguments@),
{
    let effect: EffectKind = kind_of_shape(shape);
    let frequency: u32 = match arguments.get("freq") {
        Some(v) => v,
        None => {
            return Err(ValidationError::Missing { effect, argument: Argument::Frequency });
        },
    };
    if arguments.get("db").is_none() {
        return Err(ValidationError::Missing { effect, argument: Argument::Db });
    }
    let q: u32 = match arguments.get("q") {
        Some(v) => v,
        None => {
            return Err(ValidationError::Missing { effect, argument: Argument::Q });
        },
    };
    if !(finite32(frequency) && less32(ZERO32, frequency)) {
        return Err(ValidationError::BadFrequency);
    }
    if !(finite32(q) && less32(ZERO32, q)) {
        return Err(ValidationError::BadQ);
    }
    Ok(None)
}

/// Applies a filter of the given shape to the buffer, in place. The length of
/// the stream stays as it is. Where the arguments are refused, the buffer is
/// left as it was.
pub fn apply_filter<M: Arithmetic>(
    shape: FilterShape,
    buffer: &mut AudioBuffer,
    arguments: &ArgumentSet,
    math: &M,
) -> (r: Result<(), ProcessingError>)
    ensures
        final(buffer).format == old(buffer).format,
        match r {
            Ok(()) => {
                &&& filter_check(shape, arguments@) is Ok
                &&& exists|run: FilterRun| #[trigger]
                    filter_applied(
                        math,
                        shape,
                        old(buffer).format,
                        old(buffer).samples@,
                        arguments@,
                        final(buffer).samples@,
                        run,
                    )
            },
            Err(e) => {
                &&& final(buffer).samples@ == old(buffer).samples@
                &&& filter_check(shape, arguments@) matches Err(inner) && e
                    == ProcessingError::Rejected(inner)
            },
        },
{
    if let Err(e) = validate_filter(shape, arguments) {
        return Err(ProcessingError::Rejected(e));
    }
    let frequency: u32 = match arguments.get("freq") {
        Some(v) => v,
        None => ZERO32,
    };
    let db: u32 = match arguments.get("db") {
        Some(v) => v,
        None => ZERO32,
    };
    let q: u32 = match arguments.get("q") {
        Some(v) => v,
        None => ZERO32,
    };
    let section: Biquad = math.section(shape, frequency, db, q, buffer.format.sample_rate);
    let run = run_filter(&mut buffer.samples, &section, math);
    proof {
        assert(filter_applied(
            math,
            shape,
            old(buffer).format,
            old(buffer).samples@,
            arguments@,
            buffer.samples@,
            run@,
        ));
    }
    Ok(())
}

impl EqBand {
    /// The name by which a chain refers to the effect.
    pub fn get_name(&self) -> (r: String)
        ensures
            r@ == "eqband"@,
    {
        String::from_str("eqband")
    }

    /// Checks the arguments of the peaking band. Nothing is changed. A tail
    /// length plays no part.
    pub fn validate_arguments(&self, arguments: &ArgumentSet, tail_length: &Option<u32>) -> (r:
        Result<Option<Warning>, ValidationError>)
        ensures
            r == eq_check(arguments@),
    {
        validate_filter(FilterShape::Peaking, arguments)
    }

    /// Applies the peaking band to the buffer, in place. The length of the
    /// stream stays as it is. Where the arguments are refused, the buffer is
    /// left as it was.
    pub fn apply_effect<M: Arithmetic>(
        &self,
        buffer: &mut AudioBuffer,
        arguments: &ArgumentSet,
        tail_length: &Option<u32>,
        math: &M,
    ) -> (r: Result<(), ProcessingError>)
        ensures
            final(buffer).format == old(buffer).format,
            match r {
                Ok(()) => {
                    &&& eq_check(arguments@) is Ok
                    &&& exists|run: FilterRun| #[trigger]
                        eq_applied(
                            math,
                            old(buffer).format,
                            old(buffer).samples@,
                            arguments@,
                            final(buffer).samples@,
                            run,
                        )
                },
                Err(e) => {
                    &&& final(buffer).samples@ == old(buffer).samples@
                    &&& eq_check(arguments@) matches Err(inner) && e == ProcessingError::Rejected(
                        inner,
                    )
                },
            },
    {
        let r = apply_filter(FilterShape::Peaking, buffer, arguments, math);
        proof {
            if r is Ok {
                let run = choose|run: FilterRun| #[trigger]
                    filter_applied(
                        math,
                        FilterShape::Peaking,
                        old(buffer).format,
                        old(buffer).samples@,
                        arguments@,
                        buffer.samples@,
                        run,
                    );
                assert(eq_applied(
                    math,
                    old(buffer).format,
                    old(buffer).samples@,
                    arguments@,
                    buffer.samples@,
                    run,
                ));
            }
        }
        r
    }
}

} // verus!
