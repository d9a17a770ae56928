//! A first-in first-out run queue of tasks, without wakers: a task that is
//! not finished goes to the back and is polled again in turn.
use super::Task;
use vstd::prelude::*;

verus! {

pub struct SimpleExecutor<F> {
    task_queue: Vec<Task<F>>,
}

impl<F> SimpleExecutor<F> {
    /// The tasks waiting to be polled, front first.
    pub closed spec fn queue(&self) -> Seq<Task<F>> {
        self.task_queue@
    }

    pub fn new() -> (r: SimpleExecutor<F>)
        ensures
            r.queue() == Seq::<Task<F>>::empty(),
    {
        SimpleExecutor { task_queue: Vec::new() }
    }

    /// Puts `task` at the back of the queue.
    pub fn spawn(&mut self, task: Task<F>)
        ensures
            final(self).queue() == old(self).queue().push(task),
    {
        self.task_queue.push(task);
    }

    /// Takes the task at the front of the queue; the caller polls it and
    /// spawns it again if it is not finished.
    pub fn next_task(&mut self) -> (r: Option<Task<F>>)
        ensures
            old(self).queue().len() == 0 ==> r.is_none() && final(self).queue() == old(self).queue(),
            old(self).queue().len() > 0 ==> r == Some(old(self).queue()[0]) && final(self).queue()
                == old(self).queue().drop_first(),
    {
        if self.task_queue.len() == 0 {
            None
        } else {
            Some(self.task_queue.remove(0))
        }
    }
}

} // verus!
