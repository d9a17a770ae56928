//! Tasks and the bookkeeping of the cooperative executor.
use vstd::prelude::*;

pub mod executor;
pub mod keyboard;
pub mod queue;
pub mod simple_executor;

verus! {

/// The identity of a task; ids are handed out in increasing order and never
/// reused.
#[derive(Clone, Copy, PartialEq, Eq, Structural, Debug, PartialOrd, Ord, Hash)]
pub struct TaskId(pub u64);

/// The source of fresh task ids.
pub struct TaskIdGenerator {
    next: u64,
}

impl TaskIdGenerator {
    /// The id that will be handed out next.
    pub closed spec fn spec_next(&self) -> u64 {
        self.next
    }

    pub fn new() -> (r: TaskIdGenerator)
        ensures
            r.spec_next() == 0,
    {
        TaskIdGenerator { next: 0 }
    }

    /// Whether another id can be handed out.
    pub fn has_next(&self) -> (r: bool)
        ensures
            r == (self.spec_next() < u64::MAX),
    {
        self.next < u64::MAX
    }
}

impl TaskId {
    /// A fresh id from `ids`, larger than every id it handed out before.
    pub fn new(ids: &mut TaskIdGenerator) -> (r: TaskId)
        requires
            old(ids).spec_next() < u64::MAX,
        ensures
            r.0 == old(ids).spec_next(),
            final(ids).spec_next() == old(ids).spec_next() + 1,
    {
        let id = TaskId(ids.next);
        ids.next = ids.next + 1;
        id
    }
}

/// A unit of work: an id and the future that does the work.
pub struct Task<F> {
    id: TaskId,
    future: F,
}

impl<F> Task<F> {
    pub closed spec fn spec_id(&self) -> TaskId {
        self.id
    }

    pub closed spec fn spec_future(&self) -> F {
        self.future
    }

    /// A task for `future` with a fresh id.
    pub fn new(ids: &mut TaskIdGenerator, future: F) -> (r: Task<F>)
        requires
            old(ids).spec_next() < u64::MAX,
        ensures
            r.spec_id() == TaskId(old(ids).spec_next()),
            r.spec_future() == future,
            final(ids).spec_next() == old(ids).spec_next() + 1,
    {
        Task { id: TaskId::new(ids), future }
    }

    pub fn id(&self) -> (r: TaskId)
        ensures
            r == self.spec_id(),
    {
        self.id
    }

    /// The future, to be polled.
    pub fn future_mut(&mut self) -> (r: &mut F)
        ensures
            *r == old(self).spec_future(),
            final(self).spec_id() == old(self).spec_id(),
            final(self).spec_future() == *final(r),
    {
        &mut self.future
    }

    /// The id and the future, apart.
    pub fn into_parts(self) -> (r: (TaskId, F))
        ensures
            r.0 == self.spec_id(),
            r.1 == self.spec_future(),
    {
        (self.id, self.future)
    }
}

} // verus!
