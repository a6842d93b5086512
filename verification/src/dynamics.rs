//! Gain, soft clipping and peak normalization: effects that treat each sample
//! by itself and leave the length of the stream as it is.
use crate::arithmetic::Arithmetic;
use crate::ieee::{abs32, is_nan32, lt32, magnitude32, nan32, MINUS_ONE32, ONE32, ZERO32};
use crate::number::{check_literal, is_float_literal};
use crate::text::chars_of;
use crate::types::{value_view, AudioBuffer};
use vstd::hash_map::StringHashMap;
use vstd::prelude::*;
use vstd::string::*;

verus! {

/// Why a gain or a distortion with written arguments is refused.
#[derive(Debug, PartialEq, Eq)]
pub enum DynamicsError {
    /// No argument `db` was written.
    NotProvided,
    /// The argument `db` was written without a value.
    Empty,
    /// The value of `db` is no number.
    NotANumber { value: String },
}

/// What a `DynamicsError` stands for.
pub enum DynamicsErrorView {
    NotProvided,
    Empty,
    NotANumber { value: Seq<char> },
}

impl View for DynamicsError {
    type V = DynamicsErrorView;

    open spec fn view(&self) -> DynamicsErrorView {
        match self {
            DynamicsError::NotProvided => DynamicsErrorView::NotProvided,
            DynamicsError::Empty => DynamicsErrorView::Empty,
            DynamicsError::NotANumber { value } => DynamicsErrorView::NotANumber { value: value@ },
        }
    }
}

/// The message of an error.
pub open spec fn dynamics_message(e: DynamicsErrorView) -> Seq<char> {
    match e {
        DynamicsErrorView::NotProvided => "required gain parameter 'db' not provided"@,
        DynamicsErrorView::Empty => "required gain parameter 'db' is empty"@,
        DynamicsErrorView::NotANumber { value } => "failed to parse value "@ + value,
    }
}

impl DynamicsError {
    /// The message of the error.
    pub fn message(&self) -> (r: String)
        ensures
            r@ == dynamics_message(self@),
    {
        match self {
            DynamicsError::NotProvided => String::from_str(
                "required gain parameter 'db' not provided",
            ),
            DynamicsError::Empty => String::from_str("required gain parameter 'db' is empty"),
            DynamicsError::NotANumber { value } => {
                let mut r: String = String::from_str("failed to parse value ");
                r.append(value.as_str());
                r
            },
        }
    }
}

/// The written value of `db`, or the error that the arguments give.
pub open spec fn written_db(arguments: Map<Seq<char>, Option<String>>) -> Result<
    Seq<char>,
    DynamicsErrorView,
> {
    if !arguments.contains_key("db"@) {
        Err(DynamicsErrorView::NotProvided)
    } else {
        match value_view(arguments["db"@]) {
            None => Err(DynamicsErrorView::Empty),
            Some(text) => if is_float_literal(text) {
                Ok(text)
            } else {
                Err(DynamicsErrorView::NotANumber { value: text })
            },
        }
    }
}

/// Each sample of `ys` is the sample of `xs` at its place times `factor`.
pub open spec fn scaled<M: Arithmetic>(math: &M, xs: Seq<u32>, ys: Seq<u32>, factor: u32) -> bool {
    &&& ys.len() == xs.len()
    &&& forall|i: int|
        0 <= i < xs.len() ==> call_ensures(M::product, (math, xs[i], factor), #[trigger] ys[i])
}

/// Each sample of `ys` is the hyperbolic tangent of the sample of `xs` at its
/// place times `factor`.
pub open spec fn saturated<M: Arithmetic>(math: &M, xs: Seq<u32>, ys: Seq<u32>, factor: u32) -> bool {
    &&& ys.len() == xs.len()
    &&& forall|i: int|
        0 <= i < xs.len() ==> call_ensures(M::saturate, (math, xs[i], factor), #[trigger] ys[i])
}

/// `ys` is `xs` with a gain of `db` decibels.
pub open spec fn amplified<M: Arithmetic>(math: &M, xs: Seq<u32>, ys: Seq<u32>, db: u32) -> bool {
    exists|factor: u32| #[trigger]
        call_ensures(M::amplitude, (math, db), factor) && scaled(math, xs, ys, factor)
}

/// `ys` is `xs` driven by `db` decibels into a soft clipper.
pub open spec fn clipped<M: Arithmetic>(math: &M, xs: Seq<u32>, ys: Seq<u32>, db: u32) -> bool {
    exists|factor: u32| #[trigger]
        call_ensures(M::amplitude, (math, db), factor) && saturated(math, xs, ys, factor)
}

/// The greatest magnitude among the samples that are numbers, as a bit
/// pattern; zero where there is no such sample.
pub open spec fn peak_of(xs: Seq<u32>) -> int
    decreases xs.len(),
{
    if xs.len() == 0 {
        0
    } else {
        let rest = peak_of(xs.drop_last());
        if !is_nan32(xs.last()) && magnitude32(xs.last()) > rest {
            magnitude32(xs.last())
        } else {
            rest
        }
    }
}

/// `ys` is `xs` scaled so that its peak comes to `ceiling`. A stream of
/// zeros is left as it is.
pub open spec fn normalized<M: Arithmetic>(math: &M, xs: Seq<u32>, ys: Seq<u32>, ceiling: u32) -> bool {
    if peak_of(xs) == 0 {
        ys == xs
    } else {
        exists|factor: u32| #[trigger]
            call_ensures(M::quotient, (math, ceiling, peak_of(xs) as u32), factor) && scaled(
                math,
                xs,
                ys,
                factor,
            )
    }
}

/// Multiplies every sample by `factor`.
pub fn scale<M: Arithmetic>(samples: &mut Vec<u32>, factor: u32, math: &M)
    ensures
        scaled(math, old(samples)@, final(samples)@, factor),
{
    let n: usize = samples.len();
    let ghost xs = samples@;
    let mut i: usize = 0;
    while i < n
        invariant
            n == xs.len(),
            samples@.len() == n,
            i <= n,
            forall|k: int| i <= k < n ==> samples@[k] == xs[k],
            forall|k: int|
                0 <= k < i ==> call_ensures(M::product, (math, xs[k], factor), #[trigger] samples@[k]),
        decreases n - i,
    {
        let y: u32 = math.product(samples[i], factor);
        samples.set(i, y);
        i += 1;
    }
}

/// Applies a gain of `db` decibels.
pub fn amplify<M: Arithmetic>(samples: &mut Vec<u32>, db: u32, math: &M)
    ensures
        amplified(math, old(samples)@, final(samples)@, db),
{
    let factor: u32 = math.amplitude(db);
    scale(samples, factor, math);
}

/// Drives the samples by `db` decibels into a soft clipper.
pub fn soft_clip<M: Arithmetic>(samples: &mut Vec<u32>, db: u32, math: &M)
    ensures
        clipped(math, old(samples)@, final(samples)@, db),
{
    let factor: u32 = math.amplitude(db);
    let n: usize = samples.len();
    let ghost xs = samples@;
    let mut i: usize = 0;
    while i < n
        invariant
            n == xs.len(),
            samples@.len() == n,
            i <= n,
            forall|k: int| i <= k < n ==> samples@[k] == xs[k],
            forall|k: int|
                0 <= k < i ==> call_ensures(
                    M::saturate,
                    (math, xs[k], factor),
                    #[trigger] samples@[k],
                ),
        decreases n - i,
    {
        let y: u32 = math.saturate(samples[i], factor);
        samples.set(i, y);
        i += 1;
    }
    assert(saturated(math, xs, samples@, factor));
}

/// The greatest magnitude among the samples that are numbers.
pub fn peak(samples: &Vec<u32>) -> (r: u32)
    ensures
        r == peak_of(samples@),
{
    let mut best: u32 = 0;
    let mut i: usize = 0;
    proof {
        assert(samples@.take(0) =~= Seq::empty());
    }
    while i < samples.len()
        invariant
            i <= samples@.len(),
            best == peak_of(samples@.take(i as int)),
        decreases samples@.len() - i,
    {
        let w: u32 = samples[i];
        proof {
            assert(samples@.take(i + 1).drop_last() =~= samples@.take(i as int));
        }
        if !nan32(w) && abs32(w) > best {
            best = abs32(w);
        }
        i += 1;
    }
    proof {
        assert(samples@.take(i as int) =~= samples@);
    }
    best
}

/// Scales the samples so that their peak comes to `ceiling`.
pub fn normalize<M: Arithmetic>(samples: &mut Vec<u32>, ceiling: u32, math: &M)
    ensures
        normalized(math, old(samples)@, final(samples)@, ceiling),
{
    let top: u32 = peak(samples);
    if top != 0 {
        let factor: u32 = math.quotient(ceiling, top);
        scale(samples, factor, math);
    }
}

/// Reads the written value of `db`.
fn db_literal<'a>(arguments: &'a StringHashMap<Option<String>>) -> (r: Result<
    &'a String,
    DynamicsError,
>)
    ensures
        match r {
            Ok(text) => written_db(arguments@) == Ok::<Seq<char>, DynamicsErrorView>(text@),
            Err(e) => written_db(arguments@) == Err::<Seq<char>, DynamicsErrorView>(e@),
        },
{
    match arguments.get("db") {
        None => Err(DynamicsError::NotProvided),
        Some(None) => Err(DynamicsError::Empty),
        Some(Some(text)) => {
            let digits: Vec<char> = chars_of(text.as_str());
            match check_literal(&digits) {
                Ok(()) => Ok(text),
                Err(_) => Err(DynamicsError::NotANumber { value: text.clone() }),
            }
        },
    }
}

/// Applies the gain that the argument `db` gives in decibels. Where the
/// argument is refused, the buffer is left as it was.
pub fn gain<M: Arithmetic>(
    buffer: &mut AudioBuffer,
    arguments: &StringHashMap<Option<String>>,
    math: &M,
) -> (r: Result<(), DynamicsError>)
    ensures
        final(buffer).format == old(buffer).format,
        match r {
            Ok(()) => exists|literal: &str, db: u32|
                written_db(arguments@) == Ok::<Seq<char>, DynamicsErrorView>(literal@)
                    && #[trigger] call_ensures(M::number, (math, literal), db) && amplified(
                    math,
                    old(buffer).samples@,
                    final(buffer).samples@,
                    db,
                ),
            Err(e) => {
                &&& written_db(arguments@) == Err::<Seq<char>, DynamicsErrorView>(e@)
                &&& final(buffer).samples@ == old(buffer).samples@
            },
        },
{
    let text: &String = match db_literal(arguments) {
        Ok(text) => text,
        Err(e) => {
            return Err(e);
        },
    };
    let db: u32 = math.number(text.as_str());
    amplify(&mut buffer.samples, db, math);
    Ok(())
}

/// Drives the samples into a soft clipper by the decibels that the argument
/// `db` gives. Where the argument is refused, the buffer is left as it was.
pub fn distortion<M: Arithmetic>(
    buffer: &mut AudioBuffer,
    arguments: &StringHashMap<Option<String>>,
    math: &M,
) -> (r: Result<(), DynamicsError>)
    ensures
        final(buffer).format == old(buffer).format,
        match r {
            Ok(()) => exists|literal: &str, db: u32|
                written_db(arguments@) == Ok::<Seq<char>, DynamicsErrorView>(literal@)
                    && #[trigger] call_ensures(M::number, (math, literal), db) && clipped(
                    math,
                    old(buffer).samples@,
                    final(buffer).samples@,
                    db,
                ),
            Err(e) => {
                &&& written_db(arguments@) == Err::<Seq<char>, DynamicsErrorView>(e@)
                &&& final(buffer).samples@ == old(buffer).samples@
            },
        },
{
    let text: &String = match db_literal(arguments) {
        Ok(text) => text,
        Err(e) => {
            return Err(e);
        },
    };
    let db: u32 = math.number(text.as_str());
    soft_clip(&mut buffer.samples, db, math);
    Ok(())
}

/// A gain of 0 dB changes nothing, with an arithmetic that gives the factor
/// 1 for 0 dB and for which a product with 1 is the other factor.
pub proof fn lemma_unit_gain_changes_nothing<M: Arithmetic>(math: &M, xs: Seq<u32>, ys: Seq<u32>)
    requires
        forall|factor: u32| #[trigger]
            call_ensures(M::amplitude, (math, ZERO32), factor) ==> factor == ONE32,
        forall|x: u32, y: u32| #[trigger] call_ensures(M::product, (math, x, ONE32), y) ==> y == x,
        amplified(math, xs, ys, ZERO32),
    ensures
        ys == xs,
{
    assert(ys =~= xs);
}

/// Silence stays silence through a gain and a soft clipper, with an
/// arithmetic for which zero times a factor is zero and the hyperbolic tangent
/// of that is zero.
pub proof fn lemma_silence_through_gain_and_soft_clip<M: Arithmetic>(
    math: &M,
    xs: Seq<u32>,
    mid: Seq<u32>,
    ys: Seq<u32>,
    gain_db: u32,
    clip_db: u32,
)
    requires
        forall|f: u32, y: u32| #[trigger]
            call_ensures(M::product, (math, ZERO32, f), y) ==> y == ZERO32,
        forall|f: u32, y: u32| #[trigger]
            call_ensures(M::saturate, (math, ZERO32, f), y) ==> y == ZERO32,
        forall|i: int| 0 <= i < xs.len() ==> #[trigger] xs[i] == ZERO32,
        amplified(math, xs, mid, gain_db),
        clipped(math, mid, ys, clip_db),
    ensures
        ys == xs,
{
    assert(mid =~= xs);
    assert(ys =~= xs);
}

/// The value is above -1 and below 1.
pub open spec fn inside_unit32(w: u32) -> bool {
    lt32(MINUS_ONE32, w) && lt32(w, ONE32)
}

/// Soft clipping leaves every sample above -1 and below 1, with an arithmetic
/// whose hyperbolic tangent does.
pub proof fn lemma_soft_clip_stays_inside<M: Arithmetic>(
    math: &M,
    xs: Seq<u32>,
    ys: Seq<u32>,
    db: u32,
)
    requires
        forall|a: u32, b: u32, y: u32| #[trigger]
            call_ensures(M::saturate, (math, a, b), y) ==> inside_unit32(y),
        clipped(math, xs, ys, db),
    ensures
        forall|i: int| 0 <= i < ys.len() ==> inside_unit32(#[trigger] ys[i]),
{
}

/// The peak is the greatest magnitude: no sample that is a number has a
/// greater one, and a peak above zero is the magnitude of such a sample.
pub proof fn lemma_peak_is_greatest(xs: Seq<u32>)
    ensures
        forall|i: int|
            0 <= i < xs.len() && !is_nan32(#[trigger] xs[i]) ==> magnitude32(xs[i]) <= peak_of(xs),
        peak_of(xs) == 0 || exists|i: int|
            0 <= i < xs.len() && !is_nan32(#[trigger] xs[i]) && magnitude32(xs[i]) == peak_of(xs),
    decreases xs.len(),
{
    if xs.len() > 0 {
        let rest = xs.drop_last();
        lemma_peak_is_greatest(rest);
        assert forall|i: int| 0 <= i < xs.len() && !is_nan32(#[trigger] xs[i]) implies magnitude32(
            xs[i],
        ) <= peak_of(xs) by {
            if i < rest.len() {
                assert(rest[i] == xs[i]);
            }
        }
        if peak_of(xs) != 0 {
            if peak_of(xs) == peak_of(rest) {
                let i = choose|i: int|
                    0 <= i < rest.len() && !is_nan32(#[trigger] rest[i]) && magnitude32(rest[i])
                        == peak_of(rest);
                assert(xs[i] == rest[i]);
            } else {
                assert(!is_nan32(xs[xs.len() - 1]));
            }
        }
    }
}

/// A stream without a peak is left as it is by normalization, whatever the
/// arithmetic.
pub proof fn lemma_silence_stays<M: Arithmetic>(
    math: &M,
    xs: Seq<u32>,
    ys: Seq<u32>,
    ceiling: u32,
)
    requires
        forall|i: int| 0 <= i < xs.len() ==> magnitude32(#[trigger] xs[i]) == 0,
        normalized(math, xs, ys, ceiling),
    ensures
        ys == xs,
{
    lemma_peak_of_zeros(xs);
}

proof fn lemma_peak_of_zeros(xs: Seq<u32>)
    requires
        forall|i: int| 0 <= i < xs.len() ==> magnitude32(#[trigger] xs[i]) == 0,
    ensures
        peak_of(xs) == 0,
    decreases xs.len(),
{
    if xs.len() > 0 {
        let rest = xs.drop_last();
        assert forall|i: int| 0 <= i < rest.len() implies magnitude32(#[trigger] rest[i]) == 0 by {
            assert(rest[i] == xs[i]);
        }
        lemma_peak_of_zeros(rest);
    }
}

} // verus!
