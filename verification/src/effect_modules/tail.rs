//! The end of a tail that has no given length.
//!
//! After the input of a delay has ended, the line goes on turning and the echo
//! dies away. The tail lasts while the level of the line is above a threshold.
//! With a feedback close to 1 the level may settle just above it; so a guard
//! counts how often in a row the level failed to fall, and ends the tail when
//! the count reaches the capacity of the line.
//!
//! A level is the bit pattern of a binary64 value.
use crate::ieee::{is_nan64, le64, less64, less_eq64, lt64, rank64, INFINITY64};
use vstd::prelude::*;

verus! {

/// Pattern of `0.0001` in binary64: the level, 80 dB below full scale, at
/// which a tail is taken to have died away.
pub const THRESHOLD64: u64 = 0x3f1a_36e2_eb1c_432d;

/// The watch over a tail that ends by itself. It remembers the level that it
/// saw last and counts how often in a row the level failed to fall: a level
/// that is not below the last one adds one to the count, a level below it
/// starts the count anew.
#[derive(Clone, Copy, Debug, PartialEq, Eq, Structural)]
pub struct TailGuard {
    pub counter: usize,
    pub previous: u64,
}

/// The level is above the threshold.
pub open spec fn audible(level: u64) -> bool {
    lt64(THRESHOLD64, level)
}

/// The count of a guard once it has seen `level`.
pub open spec fn counted(guard: TailGuard, level: u64) -> int {
    if lt64(level, guard.previous) {
        0
    } else if le64(guard.previous, level) {
        guard.counter + 1
    } else {
        guard.counter as int
    }
}

/// What a guard answers to a level: `None` where the tail ends, because the
/// level is not above the threshold or because the count has reached the
/// capacity of the line; else the guard for the next sample.
pub open spec fn observed(guard: TailGuard, level: u64, slots: usize) -> Option<TailGuard> {
    if !audible(level) || counted(guard, level) >= slots {
        None
    } else {
        Some(TailGuard { counter: counted(guard, level) as usize, previous: level })
    }
}

/// The guard at the start of a tail: it has counted nothing and has seen a
/// level of infinity.
pub open spec fn first_guard() -> TailGuard {
    TailGuard { counter: 0, previous: INFINITY64 }
}

/// The guard that has let the levels pass, one after the other, starting
/// from `guard`; `None` where it has ended the tail at one of them.
pub open spec fn guard_run(guard: TailGuard, levels: Seq<u64>, slots: usize) -> Option<TailGuard>
    decreases levels.len(),
{
    if levels.len() == 0 {
        Some(guard)
    } else {
        match guard_run(guard, levels.drop_last(), slots) {
            None => None,
            Some(g) => observed(g, levels.last(), slots),
        }
    }
}

impl TailGuard {
    /// The guard at the start of a tail.
    pub fn new() -> (r: TailGuard)
        ensures
            r == first_guard(),
    {
        TailGuard { counter: 0, previous: INFINITY64 }
    }

    /// Shows the guard the level of the line before the next sample of the
    /// tail. `None` ends the tail.
    pub fn observe(&self, level: u64, slots: usize) -> (r: Option<TailGuard>)
        ensures
            r == observed(*self, level, slots),
    {
        if !less64(THRESHOLD64, level) {
            return None;
        }
        let counter: usize = if less64(level, self.previous) {
            0
        } else if less_eq64(self.previous, level) {
            if self.counter == usize::MAX {
                return None;
            }
            self.counter + 1
        } else {
            self.counter
        };
        if counter >= slots {
            None
        } else {
            Some(TailGuard { counter, previous: level })
        }
    }
}

/// The level before `levels[i]`, for a guard that starts at `guard`.
pub open spec fn level_before(guard: TailGuard, levels: Seq<u64>, i: int) -> u64 {
    if i == 0 {
        guard.previous
    } else {
        levels[i - 1]
    }
}

/// A level that fails to fall as many times in a row as the line has slots
/// ends the tail: no guard lets `slots` levels pass of which none is below the
/// one before it.
pub proof fn lemma_stagnation_ends_tail(guard: TailGuard, levels: Seq<u64>, slots: usize)
    requires
        !is_nan64(guard.previous),
        levels.len() >= slots,
        levels.len() >= 1,
        forall|i: int|
            0 <= i < levels.len() ==> !lt64(#[trigger] levels[i], level_before(guard, levels, i)),
    ensures
        guard_run(guard, levels, slots) is None,
{
    lemma_stagnation_counts(guard, levels, slots);
}

proof fn lemma_stagnation_counts(guard: TailGuard, levels: Seq<u64>, slots: usize)
    requires
        !is_nan64(guard.previous),
        forall|i: int|
            0 <= i < levels.len() ==> !lt64(#[trigger] levels[i], level_before(guard, levels, i)),
    ensures
        guard_run(guard, levels, slots) matches Some(g) ==> {
            &&& g.counter >= guard.counter + levels.len()
            &&& levels.len() > 0 ==> g.counter < slots && g.previous == levels.last() && audible(
                levels.last(),
            )
        },
    decreases levels.len(),
{
    if levels.len() > 0 {
        let init = levels.drop_last();
        assert forall|i: int| 0 <= i < init.len() implies !lt64(
            #[trigger] init[i],
            level_before(guard, init, i),
        ) by {
            assert(init[i] == levels[i]);
            assert(level_before(guard, init, i) == level_before(guard, levels, i));
        }
        lemma_stagnation_counts(guard, init, slots);
        let last = levels.last();
        assert(!lt64(last, level_before(guard, levels, levels.len() - 1)));
        if init.len() > 0 {
            assert(level_before(guard, levels, levels.len() - 1) == init.last());
        }
    }
}

/// The count of a guard is a run: the levels that it counts are the latest
/// that passed, and none of them is below the one before it.
pub proof fn lemma_count_is_a_run(levels: Seq<u64>, slots: usize)
    requires
        guard_run(first_guard(), levels, slots) is Some,
    ensures
        ({
            let guard = guard_run(first_guard(), levels, slots)->0;
            &&& guard.counter <= levels.len()
            &&& levels.len() > 0 ==> guard.previous == levels.last()
            &&& forall|i: int|
                levels.len() - guard.counter <= i < levels.len() ==> !lt64(
                    #[trigger] levels[i],
                    level_before(first_guard(), levels, i),
                )
        }),
    decreases levels.len(),
{
    if levels.len() > 0 {
        let init = levels.drop_last();
        lemma_count_is_a_run(init, slots);
        let before = guard_run(first_guard(), init, slots)->0;
        let guard = guard_run(first_guard(), levels, slots)->0;
        assert forall|i: int| levels.len() - guard.counter <= i < levels.len() implies !lt64(
            #[trigger] levels[i],
            level_before(first_guard(), levels, i),
        ) by {
            if i < init.len() {
                assert(init[i] == levels[i]);
                assert(level_before(first_guard(), init, i) == level_before(
                    first_guard(),
                    levels,
                    i,
                ));
            }
        }
    }
}

/// A tail whose level never rises ends: a guard lets only so many levels
/// pass of which none is above the one before it. Each level that passes is
/// below the one before it in its bit pattern, or adds one to a count that
/// stays below the capacity of the line.
pub proof fn lemma_falling_tail_ends(levels: Seq<u64>, slots: usize)
    requires
        forall|i: int|
            0 <= i < levels.len() ==> !lt64(
                level_before(first_guard(), levels, i),
                #[trigger] levels[i],
            ),
        guard_run(first_guard(), levels, slots) is Some,
    ensures
        levels.len() <= slots * (INFINITY64 - THRESHOLD64),
{
    if levels.len() > 0 {
        lemma_passed_levels_are_audible(first_guard(), levels, slots, 0);
        assert(slots > 0) by {
            lemma_first_level_needs_a_slot(first_guard(), levels, slots);
        }
        lemma_falling_tail_potential(first_guard(), levels, slots);
        let g = guard_run(first_guard(), levels, slots)->0;
        let n = levels.len() as int;
        let s = slots as int;
        let r = rank64(g.previous);
        assert(n <= s * (INFINITY64 - THRESHOLD64)) by (nonlinear_arith)
            requires
                n + s * r - g.counter <= s * INFINITY64,
                r > THRESHOLD64,
                g.counter < s,
                s > 0,
        ;
    } else {
        assert(slots * (INFINITY64 - THRESHOLD64) >= 0) by (nonlinear_arith)
            requires
                slots >= 0,
                INFINITY64 - THRESHOLD64 >= 0,
        ;
    }
}

proof fn lemma_first_level_needs_a_slot(guard: TailGuard, levels: Seq<u64>, slots: usize)
    requires
        levels.len() > 0,
        guard_run(guard, levels, slots) is Some,
    ensures
        slots > 0,
    decreases levels.len(),
{
    if levels.len() > 1 {
        lemma_first_level_needs_a_slot(guard, levels.drop_last(), slots);
    }
}

proof fn lemma_falling_tail_potential(guard: TailGuard, levels: Seq<u64>, slots: usize)
    requires
        !is_nan64(guard.previous),
        guard.counter < slots,
        forall|i: int|
            0 <= i < levels.len() ==> !lt64(
                level_before(guard, levels, i),
                #[trigger] levels[i],
            ),
    ensures
        guard_run(guard, levels, slots) matches Some(g) ==> {
            &&& levels.len() + slots * rank64(g.previous) - g.counter <= slots * rank64(
                guard.previous,
            ) - guard.counter
            &&& !is_nan64(g.previous)
            &&& g.counter < slots
            &&& levels.len() > 0 ==> g.previous == levels.last() && audible(levels.last())
        },
    decreases levels.len(),
{
    if levels.len() > 0 {
        let init = levels.drop_last();
        assert forall|i: int| 0 <= i < init.len() implies !lt64(
            level_before(guard, init, i),
            #[trigger] init[i],
        ) by {
            assert(init[i] == levels[i]);
            assert(level_before(guard, init, i) == level_before(guard, levels, i));
        }
        lemma_falling_tail_potential(guard, init, slots);
        let last = levels.last();
        assert(!lt64(level_before(guard, levels, levels.len() - 1), last));
        if init.len() > 0 {
            assert(level_before(guard, levels, levels.len() - 1) == init.last());
        }
        if let Some(g0) = guard_run(guard, init, slots) {
            if let Some(g) = observed(g0, last, slots) {
                let s = slots as int;
                let before = rank64(g0.previous);
                let after = rank64(g.previous);
                if lt64(last, g0.previous) {
                    assert(s * after <= s * before - s) by (nonlinear_arith)
                        requires
                            after <= before - 1,
                            s >= 0,
                    ;
                } else {
                    assert(after == before);
                }
            }
        }
    }
}

/// Every level that a guard lets pass is above the threshold.
pub proof fn lemma_passed_levels_are_audible(
    guard: TailGuard,
    levels: Seq<u64>,
    slots: usize,
    i: int,
)
    requires
        0 <= i < levels.len(),
        guard_run(guard, levels, slots) is Some,
    ensures
        audible(levels[i]),
    decreases levels.len(),
{
    if i < levels.len() - 1 {
        lemma_passed_levels_are_audible(guard, levels.drop_last(), slots, i);
    }
}

} // verus!
