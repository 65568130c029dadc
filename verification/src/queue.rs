//! The bounded FIFO of samples that buffers one source.

use crate::config::{FRAME_SIZE, JITTER_THRESHOLD, MAX_QUEUE_LEN};
use std::collections::VecDeque;
use vstd::prelude::*;

verus! {

/// The last `cap` items of `s`, or all of `s` where it holds no more.
pub open spec fn newest(s: Seq<i16>, cap: nat) -> Seq<i16> {
    if s.len() > cap {
        s.skip(s.len() - cap)
    } else {
        s
    }
}

/// What a queue holding `queue` holds after `chunk` has been appended:
/// the newest `MAX_QUEUE_LEN` samples of the two, in arrival order.
pub open spec fn appended(queue: Seq<i16>, chunk: Seq<i16>) -> Seq<i16> {
    newest(queue + chunk, MAX_QUEUE_LEN as nat)
}

/// Whether a queue holding `queue` has passed the jitter threshold, so
/// that its source takes part in the next tick.
pub open spec fn is_ready(queue: Seq<i16>) -> bool {
    queue.len() >= JITTER_THRESHOLD
}

/// The frame that a tick takes from the head of a ready queue.
pub open spec fn head_frame(queue: Seq<i16>) -> Seq<i16> {
    queue.take(FRAME_SIZE as int)
}

/// What a tick leaves of a queue: a ready queue loses its head frame, any
/// other queue is untouched.
pub open spec fn after_tick(queue: Seq<i16>) -> Seq<i16> {
    if is_ready(queue) {
        queue.skip(FRAME_SIZE as int)
    } else {
        queue
    }
}

/// A FIFO of samples, oldest first, that never holds more than
/// `MAX_QUEUE_LEN` of them.
pub struct SampleQueue {
    samples: VecDeque<i16>,
}

impl View for SampleQueue {
    type V = Seq<i16>;

    closed spec fn view(&self) -> Seq<i16> {
        self.samples@
    }
}

impl SampleQueue {
    /// The capacity invariant: no more than `MAX_QUEUE_LEN` samples.
    pub open spec fn wf(&self) -> bool {
        self@.len() <= MAX_QUEUE_LEN
    }

    /// An empty queue.
    pub fn new() -> (queue: SampleQueue)
        ensures
            queue@ == Seq::<i16>::empty(),
            queue.wf(),
    {
        SampleQueue { samples: VecDeque::new() }
    }

    /// The number of samples held.
    pub fn len(&self) -> (n: usize)
        ensures
            n == self@.len(),
    {
        self.samples.len()
    }

    /// Whether the queue has passed the jitter threshold.
    pub fn ready(&self) -> (r: bool)
        ensures
            r == is_ready(self@),
    {
        self.samples.len() >= JITTER_THRESHOLD
    }

    /// Appends `chunk` at the tail. Where that would leave more than
    /// `MAX_QUEUE_LEN` samples, the oldest ones make room.
    pub fn append(&mut self, chunk: &[i16])
        requires
            old(self).wf(),
        ensures
            final(self)@ == appended(old(self)@, chunk@),
            final(self).wf(),
    {
        let n: usize = chunk.len();
        let mut k: usize = 0;
        while k < n
            invariant
                n == chunk@.len(),
                k <= n,
                old(self)@.len() <= MAX_QUEUE_LEN,
                self.samples@ == appended(old(self)@, chunk@.take(k as int)),
                self.samples@.len() <= MAX_QUEUE_LEN,
            decreases n - k,
        {
            if self.samples.len() >= MAX_QUEUE_LEN {
                let _ = self.samples.pop_front();
            }
            self.samples.push_back(chunk[k]);
            proof {
                let prev = old(self)@ + chunk@.take(k as int);
                let next = old(self)@ + chunk@.take(k + 1);
                assert(next =~= prev.push(chunk@[k as int]));
                assert(self.samples@ =~= newest(next, MAX_QUEUE_LEN as nat));
            }
            k += 1;
        }
        proof {
            assert(chunk@.take(n as int) =~= chunk@);
        }
    }

    /// Takes the head frame if the queue is ready; otherwise leaves the
    /// queue as it is.
    pub fn take_frame(&mut self) -> (frame: Option<Vec<i16>>)
        requires
            old(self).wf(),
        ensures
            frame.is_some() == is_ready(old(self)@),
            final(self)@ == after_tick(old(self)@),
            frame.is_some() ==> frame.unwrap()@ == head_frame(old(self)@),
            final(self).wf(),
    {
        if self.samples.len() < JITTER_THRESHOLD {
            return None;
        }
        let mut frame: Vec<i16> = Vec::with_capacity(FRAME_SIZE);
        let mut k: usize = 0;
        while k < FRAME_SIZE
            invariant
                k <= FRAME_SIZE,
                old(self)@.len() >= JITTER_THRESHOLD,
                old(self)@.len() <= MAX_QUEUE_LEN,
                frame@ == old(self)@.take(k as int),
                self.samples@ == old(self)@.skip(k as int),
            decreases FRAME_SIZE - k,
        {
            let head: Option<i16> = self.samples.pop_front();
            match head {
                Some(s) => {
                    frame.push(s);
                },
                None => {},
            }
            proof {
                assert(frame@ =~= old(self)@.take(k + 1));
                assert(self.samples@ =~= old(self)@.skip(k + 1));
            }
            k += 1;
        }
        Some(frame)
    }

    /// A copy of the samples held, oldest first.
    pub fn to_vec(&self) -> (samples: Vec<i16>)
        ensures
            samples@ == self@,
    {
        let n: usize = self.samples.len();
        let mut samples: Vec<i16> = Vec::with_capacity(n);
        let mut k: usize = 0;
        while k < n
            invariant
                n == self.samples@.len(),
                k <= n,
                samples@ == self.samples@.take(k as int),
            decreases n - k,
        {
            samples.push(self.samples[k]);
            proof {
                assert(samples@ =~= self.samples@.take(k + 1));
            }
            k += 1;
        }
        proof {
            assert(self.samples@.take(n as int) =~= self.samples@);
        }
        samples
    }
}

/// After an append a queue holds the newest samples, in the order in which
/// they came: all of them while they fit, else exactly `MAX_QUEUE_LEN`.
pub proof fn lemma_append_keeps_newest(queue: Seq<i16>, chunk: Seq<i16>)
    ensures
        appended(queue, chunk).len() <= MAX_QUEUE_LEN,
        queue.len() + chunk.len() <= MAX_QUEUE_LEN ==> appended(queue, chunk) == queue + chunk,
        queue.len() + chunk.len() > MAX_QUEUE_LEN ==> appended(queue, chunk).len()
            == MAX_QUEUE_LEN,
        forall|j: int|
            0 <= j < appended(queue, chunk).len() ==> #[trigger] appended(queue, chunk)[j] == (queue
                + chunk)[(queue + chunk).len() - appended(queue, chunk).len() + j],
{
}

/// Appending in two pieces leaves what appending both at once leaves.
pub proof fn lemma_append_in_pieces(queue: Seq<i16>, first: Seq<i16>, second: Seq<i16>)
    ensures
        appended(appended(queue, first), second) == appended(queue, first + second),
{
    assert(queue + (first + second) =~= (queue + first) + second);
    assert(appended(appended(queue, first), second) =~= appended(queue, first + second));
}

/// A tick loses nothing: the frame taken from a ready queue, followed by
/// what is left, is the queue as it was.
pub proof fn lemma_tick_splits_queue(queue: Seq<i16>)
    requires
        is_ready(queue),
    ensures
        head_frame(queue).len() == FRAME_SIZE,
        head_frame(queue) + after_tick(queue) == queue,
        after_tick(queue).len() == queue.len() - FRAME_SIZE,
{
    assert(head_frame(queue) + after_tick(queue) =~= queue);
}

} // verus!
