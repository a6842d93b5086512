//! The delay line: a circular buffer of samples of fixed capacity.
//!
//! The line is kept in an `AllocRingBuffer` of the `ringbuffer` crate. A value
//! that enters a full line pushes the oldest value out. The line also records,
//! for the proofs, every value that ever entered it: what it holds at any time
//! are the latest of these, at most as many as its capacity.
use crate::ieee::ZERO32;
use ringbuffer::AllocRingBuffer;
use ringbuffer::RingBuffer;
use vstd::prelude::*;

verus! {

/// `AllocRingBuffer` of the `ringbuffer` crate, taken as an opaque type: what it
/// holds is known through `ring_items`, `ring_capacity` and `ring_written`
/// only.
#[verifier::external_type_specification]
#[verifier::external_body]
#[verifier::reject_recursive_types(T)]
pub struct ExAllocRingBuffer<T>(AllocRingBuffer<T>);

/// The values that a ring buffer holds, the oldest first.
pub uninterp spec fn ring_items(ring: AllocRingBuffer<u32>) -> Seq<u32>;

/// The capacity that a ring buffer was made with.
pub uninterp spec fn ring_capacity(ring: AllocRingBuffer<u32>) -> nat;

/// The number of values that were enqueued in a ring buffer since it was made.
pub uninterp spec fn ring_written(ring: AllocRingBuffer<u32>) -> nat;

/// The greatest capacity of a delay line. The buffer allocates the next power
/// of two of its capacity, in 4-byte samples, and that has to fit an
/// allocation where addresses have 32 bits.
pub const MAX_SLOTS: usize = 0x1000_0000;

/// The greatest number of values that may enter a delay line over its life.
/// The buffer counts them in a `usize`, and reads its newest value at a
/// position that it computes in an `isize`.
pub const MAX_ENTERED: usize = usize::MAX / 2;

/// What a buffer of capacity `capacity` holds after `value` is enqueued.
pub open spec fn enqueued(items: Seq<u32>, capacity: nat, value: u32) -> Seq<u32> {
    if items.len() < capacity {
        items.push(value)
    } else {
        items.drop_first().push(value)
    }
}

/// Makes an empty ring buffer with `AllocRingBuffer::new`.
///
/// Trusted: the buffer is empty and has the capacity asked for. The call panics
/// on a capacity of zero and cannot allocate a capacity that is too large; both
/// are left out.
#[verifier::external_body]
fn ring_new(capacity: usize) -> (ring: AllocRingBuffer<u32>)
    requires
        0 < capacity <= MAX_SLOTS,
    ensures
        ring_items(ring) == Seq::<u32>::empty(),
        ring_capacity(ring) == capacity,
        ring_written(ring) == 0,
{
    AllocRingBuffer::new(capacity)
}

/// Adds a value with `RingBuffer::enqueue`.
///
/// Trusted: the value becomes the newest; where the buffer was full, the oldest
/// value leaves and is returned. The buffer counts the values written without
/// a check for overflow, so the count has to stay in bounds.
#[verifier::external_body]
fn ring_enqueue(ring: &mut AllocRingBuffer<u32>, value: u32) -> (evicted: Option<u32>)
    requires
        ring_written(*old(ring)) < MAX_ENTERED,
    ensures
        ring_items(*final(ring)) == enqueued(
            ring_items(*old(ring)),
            ring_capacity(*old(ring)),
            value,
        ),
        ring_capacity(*final(ring)) == ring_capacity(*old(ring)),
        ring_written(*final(ring)) == ring_written(*old(ring)) + 1,
        evicted == if ring_items(*old(ring)).len() < ring_capacity(*old(ring)) {
            None
        } else {
            Some(ring_items(*old(ring))[0])
        },
{
    ring.enqueue(value)
}

/// Reads the oldest value with `RingBuffer::front`.
///
/// Trusted: the result is the oldest value, or `None` where the buffer is
/// empty.
#[verifier::external_body]
fn ring_front(ring: &AllocRingBuffer<u32>) -> (r: Option<u32>)
    ensures
        r == if ring_items(*ring).len() > 0 {
            Some(ring_items(*ring)[0])
        } else {
            None
        },
{
    ring.front().copied()
}

/// Reads the newest value with `RingBuffer::back`.
///
/// Trusted: the result is the value enqueued last, or `None` where the buffer
/// is empty. The buffer adds the number of its values to the count of those
/// that left it, as an `isize` and without a check for overflow, so the count
/// of the values written has to stay in bounds.
#[verifier::external_body]
fn ring_back(ring: &AllocRingBuffer<u32>) -> (r: Option<u32>)
    requires
        ring_written(*ring) <= MAX_ENTERED,
    ensures
        r == if ring_items(*ring).len() > 0 {
            Some(ring_items(*ring).last())
        } else {
            None
        },
{
    ring.back().copied()
}

/// Copies the values out with `RingBuffer::to_vec`.
///
/// Trusted: the result holds the values of the buffer, the oldest first.
#[verifier::external_body]
fn ring_to_vec(ring: &AllocRingBuffer<u32>) -> (v: Vec<u32>)
    ensures
        v@ == ring_items(*ring),
{
    ring.to_vec()
}

/// Reads the capacity with `RingBuffer::capacity`.
///
/// Trusted: the result is the capacity that the buffer was made with.
#[verifier::external_body]
fn ring_slots(ring: &AllocRingBuffer<u32>) -> (n: usize)
    ensures
        n == ring_capacity(*ring),
{
    ring.capacity()
}

/// Index, among all values that entered a line of capacity `capacity`, of the
/// oldest that the line still holds once `entered` values have entered.
pub open spec fn oldest(capacity: nat, entered: int) -> int {
    if entered <= capacity {
        0
    } else {
        entered - capacity
    }
}

/// Why a delay line cannot be made.
#[derive(Clone, Copy, Debug, PartialEq, Eq, Structural)]
pub enum LineError {
    /// The capacity asked for is zero.
    Empty,
    /// The capacity asked for is above `MAX_SLOTS`.
    TooLong,
}

/// A delay line.
pub struct DelayLine {
    ring: AllocRingBuffer<u32>,
    entered: Ghost<Seq<u32>>,
}

impl DelayLine {
    /// Every value that has entered the line, in order, the initial zero
    /// included.
    pub closed spec fn history(&self) -> Seq<u32> {
        self.entered@
    }

    /// The capacity of the line.
    pub closed spec fn capacity(&self) -> nat {
        ring_capacity(self.ring)
    }

    /// The buffer holds the latest values that entered the line.
    pub closed spec fn in_step(&self) -> bool {
        &&& ring_written(self.ring) == self.entered@.len()
        &&& ring_items(self.ring) == self.entered@.skip(
            oldest(ring_capacity(self.ring), self.entered@.len() as int),
        )
    }

    /// The line holds the latest values that entered it, as many as its
    /// capacity allows and at least one.
    pub open spec fn wf(&self) -> bool {
        &&& 0 < self.capacity() <= MAX_SLOTS
        &&& 1 <= self.history().len() <= MAX_ENTERED
        &&& self.in_step()
    }

    /// What the line holds, the oldest value first.
    pub open spec fn view(&self) -> Seq<u32> {
        self.history().skip(oldest(self.capacity(), self.history().len() as int))
    }

    /// Makes a line of `capacity` samples that holds one zero sample.
    pub fn new(capacity: usize) -> (r: Result<DelayLine, LineError>)
        ensures
            match r {
                Ok(line) => 0 < capacity <= MAX_SLOTS && line.wf() && line.capacity() == capacity
                    && line.history() == seq![ZERO32],
                Err(LineError::Empty) => capacity == 0,
                Err(LineError::TooLong) => capacity > MAX_SLOTS,
            },
    {
        if capacity == 0 {
            Err(LineError::Empty)
        } else if capacity > MAX_SLOTS {
            Err(LineError::TooLong)
        } else {
            let mut ring: AllocRingBuffer<u32> = ring_new(capacity);
            ring_enqueue(&mut ring, ZERO32);
            let ghost first = seq![ZERO32];
            let line = DelayLine { ring, entered: Ghost(first) };
            assert(ring_items(line.ring) =~= seq![ZERO32].skip(0));
            Ok(line)
        }
    }

    /// The capacity of the line.
    pub fn slots(&self) -> (n: usize)
        requires
            self.wf(),
        ensures
            n == self.capacity(),
            0 < n <= MAX_SLOTS,
    {
        ring_slots(&self.ring)
    }

    /// The oldest value in the line: the delayed sample.
    pub fn delayed(&self) -> (r: u32)
        requires
            self.wf(),
        ensures
            r == self.history()[oldest(self.capacity(), self.history().len() as int)],
            r == self@[0],
    {
        match ring_front(&self.ring) {
            Some(value) => value,
            None => ZERO32,
        }
    }

    /// The value that entered the line last.
    pub fn newest(&self) -> (r: u32)
        requires
            self.wf(),
        ensures
            r == self.history().last(),
    {
        match ring_back(&self.ring) {
            Some(value) => value,
            None => ZERO32,
        }
    }

    /// Lets a value enter the line. Where the line is full, the oldest value
    /// leaves.
    pub fn rotate(&mut self, value: u32)
        requires
            old(self).wf(),
            old(self).history().len() < MAX_ENTERED,
        ensures
            final(self).wf(),
            final(self).capacity() == old(self).capacity(),
            final(self).history() == old(self).history().push(value),
    {
        let ghost before = self.entered@;
        let ghost capacity = ring_capacity(self.ring);
        ring_enqueue(&mut self.ring, value);
        proof {
            self.entered@ = before.push(value);
            let len = before.len() as int;
            assert(before.skip(oldest(capacity, len)).len() == len - oldest(capacity, len));
            assert(ring_items(self.ring) =~= before.push(value).skip(oldest(capacity, len + 1)));
        }
    }

    /// What the line holds, the oldest value first.
    pub fn contents(&self) -> (v: Vec<u32>)
        requires
            self.wf(),
        ensures
            v@ == self@,
            1 <= v@.len() <= self.capacity(),
    {
        ring_to_vec(&self.ring)
    }
}

} // verus!
