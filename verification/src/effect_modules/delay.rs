//! The feedback delay.
//!
//! Arguments: `mix`, the level of the delayed signal in the output; `fb`, the
//! feedback, the level at which the delayed signal enters the line again;
//! `time`, the delay in milliseconds. A tail length in seconds may be given to
//! the engine as a whole.
use crate::arithmetic::Arithmetic;
use crate::delay_line::{oldest, DelayLine, LineError, MAX_ENTERED, MAX_SLOTS};
use crate::effect_modules::tail::{
    audible, counted, first_guard, guard_run, lemma_count_is_a_run,
    lemma_passed_levels_are_audible, level_before, observed, TailGuard,
};
use crate::ieee::{clamp32, clamp_unit32, le32, less32, less_eq32, lt32, lt64, ONE32, ZERO32};
use crate::types::{
    whole_frames, Argument, ArgumentSet, AudioBuffer, EffectKind, ProcessingError, SampleFormat,
    ValidationError, Warning,
};
use vstd::arithmetic::div_mod::{lemma_fundamental_div_mod, lemma_mod_multiples_vanish};
use vstd::prelude::*;
use vstd::string::*;

verus! {

/// The feedback delay.
#[derive(Clone, Copy, Debug, PartialEq, Eq, Structural)]
pub struct Delay;

/// Pattern of `0.9` in binary32: the feedback above which a delay without a
/// tail length draws a warning.
pub const HIGH_FEEDBACK: u32 = 0x3f66_6666;

/// What the validation of a delay answers.
///
/// The three arguments have to be there. A feedback of 1 or more needs a tail
/// length; the time is at least 1; mix and feedback are not negative. These are
/// tested in this order and the first that fails is reported. A value that is
/// no number fails none of the tests.
pub open spec fn delay_check(arguments: Map<Seq<char>, u32>, tail_length: Option<u32>) -> Result<
    Option<Warning>,
    ValidationError,
> {
    if !arguments.contains_key("mix"@) {
        Err(ValidationError::Missing { effect: EffectKind::Delay, argument: Argument::Mix })
    } else if !arguments.contains_key("fb"@) {
        Err(ValidationError::Missing { effect: EffectKind::Delay, argument: Argument::Feedback })
    } else if !arguments.contains_key("time"@) {
        Err(ValidationError::Missing { effect: EffectKind::Delay, argument: Argument::Time })
    } else {
        let mix = arguments["mix"@];
        let feedback = arguments["fb"@];
        let time = arguments["time"@];
        if le32(ONE32, feedback) && tail_length is None {
            Err(ValidationError::TailRequired)
        } else if lt32(time, ONE32) {
            Err(ValidationError::TimeTooShort)
        } else if lt32(mix, ZERO32) {
            Err(ValidationError::NegativeMix)
        } else if lt32(feedback, ZERO32) {
            Err(ValidationError::NegativeFeedback)
        } else if lt32(HIGH_FEEDBACK, feedback) && lt32(feedback, ONE32) && tail_length is None {
            Ok(Some(Warning::LongTail))
        } else {
            Ok(None)
        }
    }
}

/// The greatest number of samples that a stream may have once a delay has
/// been applied to it, the padding to whole frames left aside: every sample of
/// it has entered the delay line.
pub const MAX_SAMPLES: usize = MAX_ENTERED - 1;

/// Step `i` of the input: the sample `x` meets the delayed sample, the oldest
/// in the line. `x` plus the delayed sample times the feedback enters the line,
/// and `x` plus the delayed sample times the mix is the output `y`.
pub open spec fn fed_at<M: Arithmetic>(
    math: &M,
    x: u32,
    y: u32,
    line: Seq<u32>,
    capacity: nat,
    i: int,
    feedback: u32,
    mix: u32,
) -> bool {
    let delayed = line[oldest(capacity, i + 1)];
    &&& call_ensures(M::blend, (math, x, delayed, feedback), line[i + 1])
    &&& call_ensures(M::blend, (math, x, delayed, mix), y)
}

/// The input `xs` went through a line of the given capacity that held one zero
/// sample, and came out as `ys`. `line` is every value that entered the line.
pub open spec fn fed<M: Arithmetic>(
    math: &M,
    xs: Seq<u32>,
    ys: Seq<u32>,
    line: Seq<u32>,
    capacity: nat,
    feedback: u32,
    mix: u32,
) -> bool {
    &&& ys.len() >= xs.len()
    &&& line.len() > xs.len()
    &&& line[0] == ZERO32
    &&& forall|i: int|
        0 <= i < xs.len() ==> #[trigger] fed_at(
            math,
            xs[i],
            ys[i],
            line,
            capacity,
            i,
            feedback,
            mix,
        )
}

/// Runs the input through the line, in place.
fn feed_input<M: Arithmetic>(
    samples: &mut Vec<u32>,
    line: &mut DelayLine,
    feedback: u32,
    mix: u32,
    math: &M,
)
    requires
        old(line).wf(),
        old(line).history() == seq![ZERO32],
        old(samples)@.len() <= MAX_SAMPLES,
    ensures
        final(line).wf(),
        final(line).capacity() == old(line).capacity(),
        final(line).history().len() == old(samples)@.len() + 1,
        final(samples)@.len() == old(samples)@.len(),
        fed(
            math,
            old(samples)@,
            final(samples)@,
            final(line).history(),
            old(line).capacity(),
            feedback,
            mix,
        ),
{
    let n: usize = samples.len();
    let ghost xs = samples@;
    let ghost capacity = line.capacity();
    let mut i: usize = 0;
    while i < n
        invariant
            n == xs.len(),
            n <= MAX_SAMPLES,
            i <= n,
            samples@.len() == n,
            line.wf(),
            line.capacity() == capacity,
            line.history().len() == i + 1,
            line.history()[0] == ZERO32,
            forall|k: int| i <= k < n ==> samples@[k] == xs[k],
            forall|k: int|
                0 <= k < i ==> #[trigger] fed_at(
                    math,
                    xs[k],
                    samples@[k],
                    line.history(),
                    capacity,
                    k,
                    feedback,
                    mix,
                ),
        decreases n - i,
    {
        let ghost before = line.history();
        let ghost done = samples@;
        let x: u32 = samples[i];
        let delayed: u32 = line.delayed();
        let entering: u32 = math.blend(x, delayed, feedback);
        line.rotate(entering);
        let y: u32 = math.blend(x, delayed, mix);
        samples.set(i, y);
        proof {
            assert forall|k: int| 0 <= k < i + 1 implies #[trigger] fed_at(
                math,
                xs[k],
                samples@[k],
                line.history(),
                capacity,
                k,
                feedback,
                mix,
            ) by {
                if k < i {
                    assert(fed_at(math, xs[k], done[k], before, capacity, k, feedback, mix));
                }
            }
        }
        i += 1;
    }
}

/// One sample of the tail, made when `entered` values have entered the line:
/// the delayed sample, the oldest in the line, times the feedback enters the
/// line, and the delayed sample times the mix is `wet`. The output `out` is
/// `wet` clamped to the range from -1 to 1.
pub open spec fn tail_at<M: Arithmetic>(
    math: &M,
    out: u32,
    wet: u32,
    line: Seq<u32>,
    slots: usize,
    entered: int,
    feedback: u32,
    mix: u32,
) -> bool {
    &&& call_ensures(
        M::product,
        (math, line[oldest(slots as nat, entered)], feedback),
        line[entered],
    )
    &&& call_ensures(M::product, (math, line[oldest(slots as nat, entered)], mix), wet)
    &&& out == clamp_unit32(wet)
}

/// The samples `outs` are the tail of a stream of `n` samples: the line went
/// on turning without input. `line` is every value that entered the line.
pub open spec fn tailed<M: Arithmetic>(
    math: &M,
    outs: Seq<u32>,
    wets: Seq<u32>,
    line: Seq<u32>,
    slots: usize,
    n: int,
    feedback: u32,
    mix: u32,
) -> bool {
    &&& wets.len() == outs.len()
    &&& line.len() == n + 1 + outs.len()
    &&& forall|j: int|
        0 <= j < outs.len() ==> #[trigger] tail_at(
            math,
            outs[j],
            wets[j],
            line,
            slots,
            n + 1 + j,
            feedback,
            mix,
        )
}

/// Appends a tail of `count` samples.
fn fixed_tail<M: Arithmetic>(
    samples: &mut Vec<u32>,
    line: &mut DelayLine,
    count: usize,
    feedback: u32,
    mix: u32,
    math: &M,
) -> (wets: Ghost<Seq<u32>>)
    requires
        old(line).wf(),
        old(line).history().len() == old(samples)@.len() + 1,
        old(samples)@.len() + count <= MAX_SAMPLES,
    ensures
        final(line).wf(),
        final(line).capacity() == old(line).capacity(),
        final(line).history().take(old(samples)@.len() as int + 1) == old(line).history(),
        final(samples)@.len() == old(samples)@.len() + count,
        final(samples)@.take(old(samples)@.len() as int) == old(samples)@,
        tailed(
            math,
            final(samples)@.skip(old(samples)@.len() as int),
            wets@,
            final(line).history(),
            old(line).capacity() as usize,
            old(samples)@.len() as int,
            feedback,
            mix,
        ),
{
    let n: usize = samples.len();
    let slots: usize = line.slots();
    let ghost xs = samples@;
    let ghost h0 = line.history();
    let ghost mut wets: Seq<u32> = Seq::empty();
    let mut j: usize = 0;
    proof {
        assert(h0.take(n + 1) =~= h0);
        assert(xs.take(n as int) =~= xs);
    }
    while j < count
        invariant
            j <= count,
            n + count <= MAX_SAMPLES,
            n == xs.len(),
            samples@.len() == n + j,
            samples@.take(n as int) == xs,
            line.wf(),
            line.capacity() == slots,
            line.history().len() == n + 1 + j,
            line.history().take(n + 1) == h0,
            wets.len() == j,
            forall|q: int|
                0 <= q < j ==> #[trigger] tail_at(
                    math,
                    samples@[n + q],
                    wets[q],
                    line.history(),
                    slots,
                    n + 1 + q,
                    feedback,
                    mix,
                ),
        decreases count - j,
    {
        let ghost before = line.history();
        let ghost done = samples@;
        let ghost wets0 = wets;
        let front: u32 = line.delayed();
        let entering: u32 = math.product(front, feedback);
        line.rotate(entering);
        let wet: u32 = math.product(front, mix);
        samples.push(clamp32(wet));
        proof {
            wets = wets0.push(wet);
            assert(line.history().take(n + 1) =~= before.take(n + 1));
            assert(samples@.take(n as int) =~= done.take(n as int));
            assert forall|q: int| 0 <= q < j + 1 implies #[trigger] tail_at(
                math,
                samples@[n + q],
                wets[q],
                line.history(),
                slots,
                n + 1 + q,
                feedback,
                mix,
            ) by {
                if q < j {
                    assert(tail_at(
                        math,
                        done[n + q],
                        wets0[q],
                        before,
                        slots,
                        n + 1 + q,
                        feedback,
                        mix,
                    ));
                }
            }
        }
        j += 1;
    }
    proof {
        let outs = samples@.skip(n as int);
        assert forall|q: int| 0 <= q < outs.len() implies #[trigger] tail_at(
            math,
            outs[q],
            wets[q],
            line.history(),
            slots,
            n + 1 + q,
            feedback,
            mix,
        ) by {
            assert(outs[q] == samples@[n + q]);
            assert(tail_at(
                math,
                samples@[n + q],
                wets[q],
                line.history(),
                slots,
                n + 1 + q,
                feedback,
                mix,
            ));
        }
    }
    Ghost(wets)
}

/// What the engine kept of the energy of a line while a tail ended by
/// itself. All values are binary64 bit patterns.
pub struct Meter {
    /// The sums of the squares of the first samples of the line when the input
    /// had ended: of none, of one, of two, and so on up to all.
    pub partial: Seq<u64>,
    /// The sum of the squares of the line before each sample of the tail, and
    /// after the last one.
    pub sums: Seq<u64>,
    /// For each sample of the tail, the sum without the square of the sample
    /// that was about to leave the line.
    pub dropped: Seq<u64>,
    /// The level of the line before each sample of the tail, and after the
    /// last one.
    pub levels: Seq<u64>,
}

/// `partial[m + 1]` is `partial[m]` plus the square of `values[m]`.
pub open spec fn summed_at<M: Arithmetic>(
    math: &M,
    values: Seq<u32>,
    partial: Seq<u64>,
    m: int,
) -> bool {
    call_ensures(M::add_square, (math, partial[m], values[m]), partial[m + 1])
}

/// `partial` holds the sums of the squares of `values`, taken from the left
/// and starting at zero.
pub open spec fn summed<M: Arithmetic>(math: &M, values: Seq<u32>, partial: Seq<u64>) -> bool {
    &&& partial.len() == values.len() + 1
    &&& partial[0] == 0
    &&& forall|m: int| 0 <= m < values.len() ==> #[trigger] summed_at(math, values, partial, m)
}

/// Sample `j` of a tail that follows `n` samples of input: the level was
/// taken of the sum, and the sum was brought up to date, the square of the
/// sample that left the line taken off and the square of the one that entered
/// added.
pub open spec fn metered_at<M: Arithmetic>(
    math: &M,
    meter: Meter,
    line: Seq<u32>,
    slots: usize,
    n: int,
    j: int,
) -> bool {
    let entered = n + 1 + j;
    &&& call_ensures(M::level, (math, meter.sums[j], slots), meter.levels[j])
    &&& call_ensures(
        M::sub_square,
        (math, meter.sums[j], line[oldest(slots as nat, entered)]),
        meter.dropped[j],
    )
    &&& call_ensures(M::add_square, (math, meter.dropped[j], line[entered]), meter.sums[j + 1])
}

/// A tail of `k` samples after `n` samples of input ended by itself: the guard
/// let the level pass before each of its samples, and after the last one it
/// ended the tail, or the stream had reached its greatest length.
pub open spec fn metered<M: Arithmetic>(
    math: &M,
    meter: Meter,
    line: Seq<u32>,
    slots: usize,
    n: int,
    k: int,
) -> bool {
    &&& summed(math, line.subrange(oldest(slots as nat, n + 1), n + 1), meter.partial)
    &&& meter.sums.len() == k + 1
    &&& meter.dropped.len() == k
    &&& meter.levels.len() == k + 1
    &&& meter.sums[0] == meter.partial.last()
    &&& forall|j: int| 0 <= j < k ==> #[trigger] metered_at(math, meter, line, slots, n, j)
    &&& call_ensures(M::level, (math, meter.sums[k], slots), meter.levels[k])
    &&& n + k <= MAX_SAMPLES
    &&& guard_run(first_guard(), meter.levels.take(k), slots) matches Some(guard) && (n + k
        < MAX_SAMPLES ==> observed(guard, meter.levels[k], slots) is None)
}

/// Sums the squares of the samples in the line.
fn line_energy<M: Arithmetic>(line: &DelayLine, math: &M) -> (r: (u64, Ghost<Seq<u64>>))
    requires
        line.wf(),
    ensures
        summed(math, line@, r.1@),
        r.0 == r.1@.last(),
{
    let contents: Vec<u32> = line.contents();
    let mut sum: u64 = 0;
    let ghost mut partial: Seq<u64> = seq![0u64];
    let mut m: usize = 0;
    while m < contents.len()
        invariant
            m <= contents@.len(),
            partial.len() == m + 1,
            partial[0] == 0,
            partial.last() == sum,
            forall|q: int| 0 <= q < m ==> #[trigger] summed_at(math, contents@, partial, q),
        decreases contents@.len() - m,
    {
        let ghost before = partial;
        let previous: u64 = sum;
        sum = math.add_square(previous, contents[m]);
        proof {
            partial = before.push(sum);
            assert forall|q: int| 0 <= q < m + 1 implies #[trigger] summed_at(
                math,
                contents@,
                partial,
                q,
            ) by {
                if q < m {
                    assert(summed_at(math, contents@, before, q));
                }
            }
        }
        m += 1;
    }
    (sum, Ghost(partial))
}

/// Appends the tail that ends by itself.
fn auto_tail<M: Arithmetic>(
    samples: &mut Vec<u32>,
    line: &mut DelayLine,
    feedback: u32,
    mix: u32,
    math: &M,
) -> (r: Ghost<(Seq<u32>, Meter)>)
    requires
        old(line).wf(),
        old(line).history().len() == old(samples)@.len() + 1,
        old(samples)@.len() <= MAX_SAMPLES,
    ensures
        final(line).wf(),
        final(line).capacity() == old(line).capacity(),
        final(line).history().take(old(samples)@.len() as int + 1) == old(line).history(),
        final(samples)@.len() >= old(samples)@.len(),
        final(samples)@.take(old(samples)@.len() as int) == old(samples)@,
        tailed(
            math,
            final(samples)@.skip(old(samples)@.len() as int),
            r@.0,
            final(line).history(),
            old(line).capacity() as usize,
            old(samples)@.len() as int,
            feedback,
            mix,
        ),
        metered(
            math,
            r@.1,
            final(line).history(),
            old(line).capacity() as usize,
            old(samples)@.len() as int,
            final(samples)@.len() - old(samples)@.len(),
        ),
{
    let n: usize = samples.len();
    let slots: usize = line.slots();
    let ghost xs = samples@;
    let ghost h0 = line.history();
    let (first_sum, partial) = line_energy(line, math);
    let mut sum: u64 = first_sum;
    let mut guard: TailGuard = TailGuard::new();
    let mut level: u64 = math.level(sum, slots);
    let mut next: Option<TailGuard> = if samples.len() < MAX_SAMPLES {
        guard.observe(level, slots)
    } else {
        None
    };
    let ghost mut wets: Seq<u32> = Seq::empty();
    let ghost mut meter = Meter {
        partial: partial@,
        sums: seq![sum],
        dropped: Seq::empty(),
        levels: seq![level],
    };
    proof {
        assert(h0.take(n + 1) =~= h0);
        assert(xs.take(n as int) =~= xs);
        assert(meter.levels.take(0) =~= Seq::empty());
        assert(line@ =~= h0.subrange(oldest(slots as nat, n + 1), n + 1));
    }
    while next.is_some()
        invariant
            n == xs.len(),
            n <= samples@.len() <= MAX_SAMPLES,
            samples@.take(n as int) == xs,
            line.wf(),
            line.capacity() == slots,
            line.history().len() == samples@.len() + 1,
            line.history().take(n + 1) == h0,
            wets.len() == samples@.len() - n,
            meter.partial == partial@,
            summed(math, h0.subrange(oldest(slots as nat, n + 1), n + 1), partial@),
            meter.sums[0] == partial@.last(),
            meter.sums.len() == samples@.len() - n + 1,
            meter.dropped.len() == samples@.len() - n,
            meter.levels.len() == samples@.len() - n + 1,
            meter.sums.last() == sum,
            meter.levels.last() == level,
            call_ensures(M::level, (math, sum, slots), level),
            guard_run(first_guard(), meter.levels.take(samples@.len() - n), slots) == Some(guard),
            next == if samples@.len() < MAX_SAMPLES {
                observed(guard, level, slots)
            } else {
                None
            },
            forall|q: int|
                0 <= q < samples@.len() - n ==> #[trigger] tail_at(
                    math,
                    samples@[n + q],
                    wets[q],
                    line.history(),
                    slots,
                    n + 1 + q,
                    feedback,
                    mix,
                ),
            forall|q: int|
                0 <= q < samples@.len() - n ==> #[trigger] metered_at(
                    math,
                    meter,
                    line.history(),
                    slots,
                    n as int,
                    q,
                ),
        decreases MAX_SAMPLES - samples@.len(),
    {
        let ghost before = line.history();
        let ghost done = samples@;
        let ghost wets0 = wets;
        let ghost meter0 = meter;
        let ghost k = samples@.len() - n;
        if let Some(g) = next {
            proof {
                assert(meter.levels.take(k + 1).drop_last() =~= meter.levels.take(k));
            }
            guard = g;
        }
        let front: u32 = line.delayed();
        let lowered: u64 = math.sub_square(sum, front);
        let entering: u32 = math.product(front, feedback);
        line.rotate(entering);
        let back: u32 = line.newest();
        let raised: u64 = math.add_square(lowered, back);
        let wet: u32 = math.product(front, mix);
        samples.push(clamp32(wet));
        let ghost old_sum = sum;
        sum = raised;
        level = math.level(sum, slots);
        next = if samples.len() < MAX_SAMPLES {
            guard.observe(level, slots)
        } else {
            None
        };
        proof {
            wets = wets0.push(wet);
            meter = Meter {
                partial: meter0.partial,
                sums: meter0.sums.push(sum),
                dropped: meter0.dropped.push(lowered),
                levels: meter0.levels.push(level),
            };
            assert(line.history().take(n + 1) =~= before.take(n + 1));
            assert(samples@.take(n as int) =~= done.take(n as int));
            assert(meter.levels.take(k + 1) =~= meter0.levels.take(k + 1));
            assert forall|q: int| 0 <= q < k + 1 implies #[trigger] tail_at(
                math,
                samples@[n + q],
                wets[q],
                line.history(),
                slots,
                n + 1 + q,
                feedback,
                mix,
            ) by {
                if q < k {
                    assert(tail_at(
                        math,
                        done[n + q],
                        wets0[q],
                        before,
                        slots,
                        n + 1 + q,
                        feedback,
                        mix,
                    ));
                }
            }
            assert forall|q: int| 0 <= q < k + 1 implies #[trigger] metered_at(
                math,
                meter,
                line.history(),
                slots,
                n as int,
                q,
            ) by {
                if q < k {
                    assert(metered_at(math, meter0, before, slots, n as int, q));
                } else {
                    assert(meter.sums[k] == old_sum);
                    assert(meter.levels[k] == meter0.levels.last());
                }
            }
        }
    }
    proof {
        let outs = samples@.skip(n as int);
        let k = samples@.len() - n;
        assert forall|q: int| 0 <= q < outs.len() implies #[trigger] tail_at(
            math,
            outs[q],
            wets[q],
            line.history(),
            slots,
            n + 1 + q,
            feedback,
            mix,
        ) by {
            assert(outs[q] == samples@[n + q]);
            assert(tail_at(
                math,
                samples@[n + q],
                wets[q],
                line.history(),
                slots,
                n + 1 + q,
                feedback,
                mix,
            ));
        }
        assert(line.history().subrange(oldest(slots as nat, n + 1), n + 1) =~= h0.subrange(
            oldest(slots as nat, n + 1),
            n + 1,
        )) by {
            assert(forall|i: int| 0 <= i < n + 1 ==> h0[i] == line.history().take(n + 1)[i]);
        }
    }
    Ghost((wets, meter))
}

/// `result` is `out` followed by zero samples, as few as make whole frames
/// of it. For two channels this is one sample at most.
pub open spec fn padded(out: Seq<u32>, channels: nat, result: Seq<u32>) -> bool {
    &&& out.len() <= result.len() < out.len() + channels
    &&& result.len() % channels == 0
    &&& result.take(out.len() as int) == out
    &&& forall|i: int| out.len() <= i < result.len() ==> result[i] == ZERO32
}

/// Appends zero samples until the stream holds whole frames. Without a
/// channel there are no frames, and the stream is left as it is.
pub fn pad_to_frames(samples: &mut Vec<u32>, channels: u16)
    ensures
        channels > 0 ==> padded(old(samples)@, channels as nat, final(samples)@),
        channels == 0 ==> final(samples)@ == old(samples)@,
{
    if channels == 0 {
        return ;
    }
    let n: usize = samples.len();
    let c: usize = channels as usize;
    let rest: usize = n % c;
    let ghost out = samples@;
    proof {
        assert(out.take(n as int) =~= out);
    }
    if rest != 0 {
        let missing: usize = c - rest;
        let mut i: usize = 0;
        while i < missing
            invariant
                i <= missing,
                missing < c,
                c <= 0xffff,
                n == out.len(),
                samples@.len() == n + i,
                samples@.take(n as int) == out,
                forall|k: int| n <= k < n + i ==> samples@[k] == ZERO32,
            decreases missing - i,
        {
            let ghost before = samples@;
            samples.push(ZERO32);
            proof {
                assert(samples@.take(n as int) =~= before.take(n as int));
            }
            i += 1;
        }
        proof {
            let len = n as int;
            let cc = c as int;
            assert(len == cc * (len / cc) + len % cc) by (nonlinear_arith)
                requires
                    cc > 0,
            ;
            assert((len + cc - len % cc) % cc == 0) by (nonlinear_arith)
                requires
                    cc > 0,
                    len == cc * (len / cc) + len % cc,
            ;
        }
    }
}

/// What happened while a delay was applied. All of it follows from the input
/// and the arithmetic; it is named so that the contract can speak of it.
pub struct DelayRun {
    /// The capacity of the delay line.
    pub slots: usize,
    /// The stream with its tail, before it was padded to whole frames.
    pub out: Seq<u32>,
    /// Every value that entered the delay line, the initial zero first.
    pub line: Seq<u32>,
    /// The samples of the tail before they were clamped.
    pub wets: Seq<u32>,
    /// The frames of a tail of given length.
    pub frames: u32,
    /// The energy of the line during a tail that ended by itself.
    pub meter: Meter,
}

/// The mix of a delay: the level of the delayed signal in the output.
pub open spec fn delay_mix(arguments: Map<Seq<char>, u32>) -> u32 {
    arguments["mix"@]
}

/// The feedback of a delay: the level at which the delayed signal enters the
/// line again.
pub open spec fn delay_feedback(arguments: Map<Seq<char>, u32>) -> u32 {
    arguments["fb"@]
}

/// The time of a delay in milliseconds.
pub open spec fn delay_time(arguments: Map<Seq<char>, u32>) -> u32 {
    arguments["time"@]
}

/// The stream `result` is what a delay makes of the stream `xs`.
///
/// The line has as many slots as the arithmetic gives for the delay time. The
/// input goes through the line. Then the tail follows: with a tail length, as
/// many frames as the arithmetic gives for that length and the sample rate;
/// without one, samples until the guard ends the tail. At last the stream is
/// padded to whole frames.
pub open spec fn delay_applied<M: Arithmetic>(
    math: &M,
    format: SampleFormat,
    xs: Seq<u32>,
    arguments: Map<Seq<char>, u32>,
    tail_length: Option<u32>,
    result: Seq<u32>,
    run: DelayRun,
) -> bool {
    let n = xs.len() as int;
    let feedback = delay_feedback(arguments);
    let mix = delay_mix(arguments);
    &&& call_ensures(
        M::delay_slots,
        (math, delay_time(arguments), format.sample_rate, format.channels),
        run.slots,
    )
    &&& 0 < run.slots <= MAX_SLOTS
    &&& n <= run.out.len() <= MAX_SAMPLES
    &&& fed(math, xs, run.out, run.line, run.slots as nat, feedback, mix)
    &&& tailed(math, run.out.skip(n), run.wets, run.line, run.slots, n, feedback, mix)
    &&& match tail_length {
        Some(length) => {
            &&& call_ensures(M::tail_frames, (math, length, format.sample_rate), run.frames)
            &&& run.out.len() - n == format.channels * run.frames
        },
        None => metered(math, run.meter, run.line, run.slots, n, run.out.len() - n),
    }
    &&& padded(run.out, format.channels as nat, result)
}

/// The delay refuses the buffer with the error `e`. The tests are made in the
/// order in which they stand here, and the first that fails gives the error.
pub open spec fn delay_refused<M: Arithmetic>(
    math: &M,
    format: SampleFormat,
    xs: Seq<u32>,
    arguments: Map<Seq<char>, u32>,
    tail_length: Option<u32>,
    e: ProcessingError,
) -> bool {
    let n = xs.len();
    match e {
        ProcessingError::MalformedBuffer => !whole_frames(format, n),
        ProcessingError::Rejected(inner) => whole_frames(format, n) && delay_check(
            arguments,
            tail_length,
        ) == Err::<Option<Warning>, ValidationError>(inner),
        _ => {
            &&& whole_frames(format, n)
            &&& delay_check(arguments, tail_length) is Ok
            &&& exists|slots: usize| #[trigger]
                call_ensures(
                    M::delay_slots,
                    (math, delay_time(arguments), format.sample_rate, format.channels),
                    slots,
                ) && match e {
                    ProcessingError::EmptyDelayLine => slots == 0,
                    ProcessingError::DelayLineTooLong => slots > MAX_SLOTS,
                    _ => 0 < slots <= MAX_SLOTS && (n > MAX_SAMPLES || (tail_length matches Some(
                        length,
                    ) && exists|frames: u32| #[trigger]
                        call_ensures(M::tail_frames, (math, length, format.sample_rate), frames)
                            && n + format.channels * frames > MAX_SAMPLES)),
                }
        },
    }
}

/// A feedback of 1 or more without a tail length is refused, whatever the
/// other arguments are.
pub proof fn lemma_feedback_needs_tail(arguments: Map<Seq<char>, u32>)
    requires
        arguments.contains_key("mix"@),
        arguments.contains_key("fb"@),
        arguments.contains_key("time"@),
        le32(ONE32, delay_feedback(arguments)),
    ensures
        delay_check(arguments, None) == Err::<Option<Warning>, ValidationError>(
            ValidationError::TailRequired,
        ),
{
}

/// With a tail length, a delay adds exactly the frames of that length,
/// whatever the feedback is: as many samples as the channels times the frames
/// that the arithmetic gives for the tail length and the sample rate.
pub proof fn lemma_fixed_tail_length<M: Arithmetic>(
    math: &M,
    format: SampleFormat,
    xs: Seq<u32>,
    arguments: Map<Seq<char>, u32>,
    length: u32,
    result: Seq<u32>,
    run: DelayRun,
)
    requires
        whole_frames(format, xs.len()),
        delay_applied(math, format, xs, arguments, Some(length), result, run),
    ensures
        call_ensures(M::tail_frames, (math, length, format.sample_rate), run.frames),
        result.len() == xs.len() + format.channels * run.frames,
        result == run.out,
{
    let c = format.channels as int;
    let n = xs.len() as int;
    lemma_mod_multiples_vanish(run.frames as int, n, c);
    lemma_whole_frames_need_no_padding(run.out, format.channels as nat, result);
}

/// A stream of whole frames is left as it is by padding.
proof fn lemma_whole_frames_need_no_padding(out: Seq<u32>, channels: nat, result: Seq<u32>)
    requires
        channels > 0,
        out.len() % channels == 0,
        padded(out, channels, result),
    ensures
        result == out,
{
    let c = channels as int;
    let len = out.len() as int;
    let padded_len = result.len() as int;
    lemma_fundamental_div_mod(len, c);
    lemma_fundamental_div_mod(padded_len, c);
    let a = len / c;
    let b = padded_len / c;
    assert(b == a) by (nonlinear_arith)
        requires
            c > 0,
            len == c * a,
            padded_len == c * b,
            len <= padded_len < len + c,
    ;
    assert(result =~= result.take(len));
}

/// Without a tail length, a delay whose line is not above the threshold when
/// the input ends adds no sample.
pub proof fn lemma_quiet_line_has_no_tail<M: Arithmetic>(
    math: &M,
    format: SampleFormat,
    xs: Seq<u32>,
    arguments: Map<Seq<char>, u32>,
    result: Seq<u32>,
    run: DelayRun,
)
    requires
        whole_frames(format, xs.len()),
        delay_applied(math, format, xs, arguments, None, result, run),
        !audible(run.meter.levels[0]),
    ensures
        result.len() == xs.len(),
{
    let k = run.out.len() - xs.len();
    if k > 0 {
        lemma_passed_levels_are_audible(first_guard(), run.meter.levels.take(k), run.slots, 0);
    }
    lemma_whole_frames_need_no_padding(run.out, format.channels as nat, result);
}

/// Without a tail length, the tail ends when the level of the line is no
/// longer above the threshold, unless the level has failed to fall as many
/// times in a row as the line has slots, or the stream has reached its
/// greatest length.
pub proof fn lemma_ended_tail_is_quiet<M: Arithmetic>(
    math: &M,
    format: SampleFormat,
    xs: Seq<u32>,
    arguments: Map<Seq<char>, u32>,
    result: Seq<u32>,
    run: DelayRun,
)
    requires
        delay_applied(math, format, xs, arguments, None, result, run),
        run.out.len() < MAX_SAMPLES,
    ensures
        ({
            let k = run.out.len() - xs.len();
            let last = run.meter.levels[k];
            let guard = guard_run(first_guard(), run.meter.levels.take(k), run.slots)->0;
            !audible(last) || counted(guard, last) >= run.slots
        }),
{
}

/// Without a tail length, a tail that ends while the level of the line is
/// above the threshold ends so because the level has failed to fall as many
/// times in a row as the line has slots: none of the latest levels, as many
/// as the line has slots, is below the one before it.
pub proof fn lemma_loud_end_follows_a_run<M: Arithmetic>(
    math: &M,
    format: SampleFormat,
    xs: Seq<u32>,
    arguments: Map<Seq<char>, u32>,
    result: Seq<u32>,
    run: DelayRun,
    i: int,
)
    requires
        delay_applied(math, format, xs, arguments, None, result, run),
        run.out.len() < MAX_SAMPLES,
        audible(run.meter.levels[run.out.len() - xs.len()]),
        run.out.len() - xs.len() - run.slots < i <= run.out.len() - xs.len(),
    ensures
        0 <= i,
        !lt64(run.meter.levels[i], level_before(first_guard(), run.meter.levels, i)),
{
    let k = run.out.len() - xs.len();
    let levels = run.meter.levels;
    let passed = levels.take(k);
    lemma_count_is_a_run(passed, run.slots);
    let guard = guard_run(first_guard(), passed, run.slots)->0;
    assert(counted(guard, levels[k]) >= run.slots);
    assert(guard.counter + 1 >= run.slots);
    if i < k {
        assert(passed[i] == levels[i]);
        assert(level_before(first_guard(), passed, i) == level_before(first_guard(), levels, i));
    } else {
        if k > 0 {
            assert(passed.last() == levels[k - 1]);
        }
    }
}

/// A delay leaves whole frames: the stream that it gives holds whole frames,
/// whatever the length of the tail.
pub proof fn lemma_delay_keeps_whole_frames<M: Arithmetic>(
    math: &M,
    format: SampleFormat,
    xs: Seq<u32>,
    arguments: Map<Seq<char>, u32>,
    tail_length: Option<u32>,
    result: Seq<u32>,
    run: DelayRun,
)
    requires
        format.supported(),
        delay_applied(math, format, xs, arguments, tail_length, result, run),
    ensures
        whole_frames(format, result.len()),
{
}

impl Delay {
    /// The name by which a chain refers to the effect.
    pub fn get_name(&self) -> (r: String)
        ensures
            r@ == "delay"@,
    {
        String::from_str("delay")
    }

    /// Checks the arguments of a delay. Nothing is changed.
    pub fn validate_arguments(&self, arguments: &ArgumentSet, tail_length: &Option<u32>) -> (r:
        Result<Option<Warning>, ValidationError>)
        ensures
            r == delay_check(arguments@, *tail_length),
    {
        let mix: u32 = match arguments.get("mix") {
            Some(v) => v,
            None => {
                return Err(
                    ValidationError::Missing {
                        effect: EffectKind::Delay,
                        argument: Argument::Mix,
                    },
                );
            },
        };
        let feedback: u32 = match arguments.get("fb") {
            Some(v) => v,
            None => {
                return Err(
                    ValidationError::Missing {
                        effect: EffectKind::Delay,
                        argument: Argument::Feedback,
                    },
                );
            },
        };
        let time: u32 = match arguments.get("time") {
            Some(v) => v,
            None => {
                return Err(
                    ValidationError::Missing {
                        effect: EffectKind::Delay,
                        argument: Argument::Time,
                    },
                );
            },
        };
        if less_eq32(ONE32, feedback) && tail_length.is_none() {
            return Err(ValidationError::TailRequired);
        }
        if less32(time, ONE32) {
            return Err(ValidationError::TimeTooShort);
        }
        if less32(mix, ZERO32) {
            return Err(ValidationError::NegativeMix);
        }
        if less32(feedback, ZERO32) {
            return Err(ValidationError::NegativeFeedback);
        }
        if less32(HIGH_FEEDBACK, feedback) && less32(feedback, ONE32) && tail_length.is_none() {
            Ok(Some(Warning::LongTail))
        } else {
            Ok(None)
        }
    }

    /// Applies the delay to the buffer, in place. The stream grows by the
    /// tail. Where the delay refuses the buffer, the buffer is left as it was.
    pub fn apply_effect<M: Arithmetic>(
        &self,
        audio_buffer: &mut AudioBuffer,
        arguments: &ArgumentSet,
        tail_length: &Option<u32>,
        math: &M,
    ) -> (r: Result<(), ProcessingError>)
        ensures
            final(audio_buffer).format == old(audio_buffer).format,
            match r {
                Ok(()) => {
                    &&& old(audio_buffer).wf()
                    &&& final(audio_buffer).wf()
                    &&& delay_check(arguments@, *tail_length) is Ok
                    &&& exists|run: DelayRun| #[trigger]
                        delay_applied(
                            math,
                            old(audio_buffer).format,
                            old(audio_buffer).samples@,
                            arguments@,
                            *tail_length,
                            final(audio_buffer).samples@,
                            run,
                        )
                },
                Err(e) => {
                    &&& final(audio_buffer).samples@ == old(audio_buffer).samples@
                    &&& delay_refused(
                        math,
                        old(audio_buffer).format,
                        old(audio_buffer).samples@,
                        arguments@,
                        *tail_length,
                        e,
                    )
                },
            },
    {
        let format = audio_buffer.format;
        if !audio_buffer.is_wf() {
            return Err(ProcessingError::MalformedBuffer);
        }
        if let Err(e) = self.validate_arguments(arguments, tail_length) {
            return Err(ProcessingError::Rejected(e));
        }
        let mix: u32 = match arguments.get("mix") {
            Some(v) => v,
            None => ZERO32,
        };
        let feedback: u32 = match arguments.get("fb") {
            Some(v) => v,
            None => ZERO32,
        };
        let time: u32 = match arguments.get("time") {
            Some(v) => v,
            None => ZERO32,
        };
        let slots: usize = math.delay_slots(time, format.sample_rate, format.channels);
        let mut line: DelayLine = match DelayLine::new(slots) {
            Ok(line) => line,
            Err(LineError::Empty) => {
                return Err(ProcessingError::EmptyDelayLine);
            },
            Err(LineError::TooLong) => {
                return Err(ProcessingError::DelayLineTooLong);
            },
        };
        let n: usize = audio_buffer.samples.len();
        if n > MAX_SAMPLES {
            return Err(ProcessingError::StreamTooLong);
        }
        let mut frames: u32 = 0;
        let count: Option<usize> = match tail_length {
            Some(length) => {
                frames = math.tail_frames(*length, format.sample_rate);
                let c: u64 = format.channels as u64;
                let f: u64 = frames as u64;
                proof {
                    assert(c * f <= 0xffff * 0xffff_ffff) by (nonlinear_arith)
                        requires
                            0 <= c <= 0xffff,
                            0 <= f <= 0xffff_ffff,
                    ;
                }
                let total: u64 = c * f;
                if total > (MAX_SAMPLES - n) as u64 {
                    return Err(ProcessingError::StreamTooLong);
                }
                Some(total as usize)
            },
            None => None,
        };
        let ghost xs = audio_buffer.samples@;
        feed_input(&mut audio_buffer.samples, &mut line, feedback, mix, math);
        let ghost ys = audio_buffer.samples@;
        let ghost h1 = line.history();
        let ghost mut run: DelayRun;
        match count {
            Some(count) => {
                let wets = fixed_tail(
                    &mut audio_buffer.samples,
                    &mut line,
                    count,
                    feedback,
                    mix,
                    math,
                );
                proof {
                    run = DelayRun {
                        slots,
                        out: audio_buffer.samples@,
                        line: line.history(),
                        wets: wets@,
                        frames,
                        meter: Meter {
                            partial: Seq::empty(),
                            sums: Seq::empty(),
                            dropped: Seq::empty(),
                            levels: Seq::empty(),
                        },
                    };
                }
            },
            None => {
                let tail = auto_tail(&mut audio_buffer.samples, &mut line, feedback, mix, math);
                proof {
                    run = DelayRun {
                        slots,
                        out: audio_buffer.samples@,
                        line: line.history(),
                        wets: tail@.0,
                        frames,
                        meter: tail@.1,
                    };
                }
            },
        }
        proof {
            assert forall|i: int| 0 <= i < xs.len() implies #[trigger] fed_at(
                math,
                xs[i],
                run.out[i],
                run.line,
                slots as nat,
                i,
                feedback,
                mix,
            ) by {
                assert(fed_at(math, xs[i], ys[i], h1, slots as nat, i, feedback, mix));
                assert(run.out[i] == run.out.take(n as int)[i]);
                assert(run.line[i + 1] == run.line.take(n + 1)[i + 1]);
                assert(run.line[oldest(slots as nat, i + 1)] == run.line.take(n + 1)[oldest(
                    slots as nat,
                    i + 1,
                )]);
            }
            assert(run.line[0] == run.line.take(n + 1)[0]);
        }
        pad_to_frames(&mut audio_buffer.samples, format.channels);
        proof {
            assert(delay_applied(
                math,
                old(audio_buffer).format,
                old(audio_buffer).samples@,
                arguments@,
                *tail_length,
                audio_buffer.samples@,
                run,
            ));
        }
        Ok(())
    }
}

} // verus!
