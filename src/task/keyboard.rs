//! The scancode stream between the keyboard interrupt and the shell task: a
//! bounded FIFO of bytes.
use super::queue::{queue_capacity, queue_items, queue_new, queue_pop, queue_push};
use crossbeam_queue::ArrayQueue;
use vstd::prelude::*;

verus! {

/// How many scancodes wait at most for the shell.
pub const SCANCODE_QUEUE_CAPACITY: usize = 100;

/// What became of a scancode that the interrupt handler delivered.
#[derive(Clone, Copy, PartialEq, Eq, Structural, Debug)]
pub enum ScancodeOutcome {
    /// It is queued; the reader's waker is to be woken.
    Queued,
    /// The queue was full and it was dropped; a warning is due.
    Dropped,
}

/// The queue of scancodes that the shell reads.
pub struct ScancodeStream {
    queue: ArrayQueue<u64>,
}

impl ScancodeStream {
    /// The scancodes waiting, oldest first.
    pub closed spec fn pending(&self) -> Seq<u8> {
        queue_items(self.queue).map_values(|v: u64| v as u8)
    }

    pub closed spec fn wf(&self) -> bool {
        &&& queue_capacity(self.queue) == SCANCODE_QUEUE_CAPACITY
        &&& forall|i: int| 0 <= i < queue_items(self.queue).len() ==> #[trigger] queue_items(self.queue)[i] < 256
    }

    /// The result of `add_scancode(b)` on `old` is `r`, leaving `new`.
    pub open spec fn add_post(old: Self, b: u8, r: ScancodeOutcome, new: Self) -> bool {
        if old.pending().len() < SCANCODE_QUEUE_CAPACITY {
            r == ScancodeOutcome::Queued && new.pending() == old.pending().push(b)
        } else {
            r == ScancodeOutcome::Dropped && new.pending() == old.pending()
        }
    }

    /// The result of `poll_next()` on `old` is `r`, leaving `new`.
    pub open spec fn poll_post(old: Self, r: Option<u8>, new: Self) -> bool {
        if old.pending().len() > 0 {
            r == Some(old.pending()[0]) && new.pending() == old.pending().drop_first()
        } else {
            r.is_none() && new.pending() == old.pending()
        }
    }

    /// An empty stream.
    pub fn new() -> (r: ScancodeStream)
        ensures
            r.wf(),
            r.pending() == Seq::<u8>::empty(),
    {
        let r = ScancodeStream { queue: queue_new(SCANCODE_QUEUE_CAPACITY) };
        assert(r.pending() =~= Seq::<u8>::empty());
        r
    }

    /// Queues a scancode from the keyboard, or drops it when the queue is
    /// full.
    pub fn add_scancode(&mut self, scancode: u8) -> (r: ScancodeOutcome)
        requires
            old(self).wf(),
        ensures
            final(self).wf(),
            Self::add_post(*old(self), scancode, r, *final(self)),
    {
        match queue_push(&mut self.queue, scancode as u64) {
            Ok(()) => {
                proof {
                    assert(self.pending() =~= old(self).pending().push(scancode));
                }
                ScancodeOutcome::Queued
            },
            Err(_) => ScancodeOutcome::Dropped,
        }
    }

    /// The oldest waiting scancode, or `None` when none waits (the reader
    /// then registers its waker and waits).
    pub fn poll_next(&mut self) -> (r: Option<u8>)
        requires
            old(self).wf(),
        ensures
            final(self).wf(),
            Self::poll_post(*old(self), r, *final(self)),
    {
        let r = queue_pop(&mut self.queue);
        proof {
            if queue_items(old(self).queue).len() > 0 {
                assert(self.pending() =~= old(self).pending().drop_first());
            }
        }
        match r {
            Some(v) => Some(v as u8),
            None => None,
        }
    }
}

/// A scancode added to the stream is delivered after every scancode that
/// was waiting before it, and only once: polling after an add yields the
/// oldest waiting scancode, or the new one when none was waiting.
pub proof fn lemma_add_then_poll(
    s0: ScancodeStream,
    b: u8,
    a: ScancodeOutcome,
    s1: ScancodeStream,
    r: Option<u8>,
    s2: ScancodeStream,
)
    requires
        ScancodeStream::add_post(s0, b, a, s1),
        ScancodeStream::poll_post(s1, r, s2),
        a == ScancodeOutcome::Queued,
    ensures
        s0.pending().len() > 0 ==> r == Some(s0.pending()[0]) && s2.pending() == s0.pending().drop_first().push(b),
        s0.pending().len() == 0 ==> r == Some(b) && s2.pending() == Seq::<u8>::empty(),
{
    if s0.pending().len() > 0 {
        assert(s0.pending().push(b).drop_first() =~= s0.pending().drop_first().push(b));
    } else {
        assert(s0.pending().push(b).drop_first() =~= Seq::<u8>::empty());
    }
}

} // verus!
