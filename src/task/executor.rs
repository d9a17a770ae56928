//! The cooperative executor: the tasks, the queue of wake-ups that says which
//! are ready and in what order, and which tasks have a waker. The queue is a
//! value of its own, since wakers share it with the executor (and wake from
//! interrupt handlers) while the tasks stay with the executor. Polling the
//! futures and halting the CPU while nothing is ready are the caller's part;
//! this decides what is polled next and what a completion removes.
use super::queue::{
    queue_capacity, queue_is_empty, queue_items, queue_len, queue_new, queue_pop, queue_push,
};
use super::{Task, TaskId};
use crossbeam_queue::ArrayQueue;
use vstd::prelude::*;

verus! {

/// How many wake-ups the ready queue holds.
pub const TASK_QUEUE_CAPACITY: usize = 100;

/// Where `id` stands in `v`, if it is there.
fn position(v: &Vec<TaskId>, id: TaskId) -> (r: Option<usize>)
    ensures
        r.is_none() ==> !v@.contains(id),
        r.is_some() ==> r.unwrap() < v@.len() && v@[r.unwrap() as int] == id,
{
    let mut i: usize = 0;
    while i < v.len()
        invariant
            i <= v@.len(),
            forall|j: int| 0 <= j < i ==> v@[j] != id,
        decreases v@.len() - i,
    {
        if v[i] == id {
            return Some(i);
        }
        i = i + 1;
    }
    None
}

/// Where the task `id` stands in `v`, if it is there.
fn task_position<F>(v: &Vec<Task<F>>, id: TaskId) -> (r: Option<usize>)
    ensures
        r.is_none() ==> !task_ids(v@).contains(id),
        r.is_some() ==> r.unwrap() < v@.len() && v@[r.unwrap() as int].spec_id() == id,
{
    let mut i: usize = 0;
    while i < v.len()
        invariant
            i <= v@.len(),
            forall|j: int| 0 <= j < i ==> v@[j].spec_id() != id,
        decreases v@.len() - i,
    {
        if v[i].id() == id {
            return Some(i);
        }
        i = i + 1;
    }
    proof {
        if task_ids(v@).contains(id) {
            let j = choose|j: int| 0 <= j < task_ids(v@).len() && task_ids(v@)[j] == id;
            assert(v@[j].spec_id() == id);
        }
    }
    None
}

/// The ids of `tasks`, in order.
pub open spec fn task_ids<F>(tasks: Seq<Task<F>>) -> Seq<TaskId> {
    tasks.map_values(|t: Task<F>| t.spec_id())
}

/// Replacing a task by one with the same id keeps the ids.
pub broadcast proof fn lemma_task_ids_update<F>(s: Seq<Task<F>>, i: int, t: Task<F>)
    requires
        0 <= i < s.len(),
        t.spec_id() == s[i].spec_id(),
    ensures
        #[trigger] task_ids(s.update(i, t)) == task_ids(s),
{
    assert(task_ids(s.update(i, t)) =~= task_ids(s));
}

/// The wake-ups of tasks, oldest first, with room for a fixed number.
pub struct ReadyQueue {
    queue: ArrayQueue<u64>,
}

impl ReadyQueue {
    /// The ids of the woken tasks, in the order of their wake-ups.
    pub closed spec fn ready(&self) -> Seq<u64> {
        queue_items(self.queue)
    }

    pub closed spec fn wf(&self) -> bool {
        queue_capacity(self.queue) == TASK_QUEUE_CAPACITY
    }

    /// An empty queue.
    pub fn new() -> (r: ReadyQueue)
        ensures
            r.wf(),
            r.ready() == Seq::<u64>::empty(),
    {
        ReadyQueue { queue: queue_new(TASK_QUEUE_CAPACITY) }
    }

    /// Whether a wake-up can be queued without overflowing the queue.
    pub fn can_wake(&self) -> (r: bool)
        requires
            self.wf(),
        ensures
            r == (self.ready().len() < TASK_QUEUE_CAPACITY),
    {
        queue_len(&self.queue) < TASK_QUEUE_CAPACITY
    }

    /// Queues a wake-up of `id`: what the waker of `id` does.
    pub fn wake(&mut self, id: TaskId)
        requires
            old(self).wf(),
            old(self).ready().len() < TASK_QUEUE_CAPACITY,
        ensures
            final(self).wf(),
            final(self).ready() == old(self).ready().push(id.0),
    {
        let _ = queue_push(&mut self.queue, id.0);
    }

    /// Whether nothing is ready, so that the CPU may halt until the next
    /// interrupt.
    pub fn is_idle(&self) -> (r: bool)
        ensures
            r == (self.ready().len() == 0),
    {
        queue_is_empty(&self.queue)
    }
}

/// The future of the task `id` among `tasks`, if there is one.
pub open spec fn future_in<F>(tasks: Seq<Task<F>>, id: TaskId) -> Option<F>
    decreases tasks.len(),
{
    if tasks.len() == 0 {
        None
    } else if tasks.last().spec_id() == id {
        Some(tasks.last().spec_future())
    } else {
        future_in(tasks.drop_last(), id)
    }
}

proof fn lemma_no_duplicates_drop_last<F>(s: Seq<Task<F>>)
    requires
        s.len() > 0,
        task_ids(s).no_duplicates(),
    ensures
        task_ids(s.drop_last()).no_duplicates(),
        task_ids(s.drop_last()) == task_ids(s).drop_last(),
{
    assert(task_ids(s.drop_last()) =~= task_ids(s).drop_last());
}

/// A task has a future exactly when its id is among the tasks.
proof fn lemma_future_in_present<F>(s: Seq<Task<F>>, x: TaskId)
    ensures
        future_in(s, x).is_some() == task_ids(s).contains(x),
    decreases s.len(),
{
    if s.len() > 0 {
        let d = s.drop_last();
        assert(task_ids(d) =~= task_ids(s).drop_last());
        lemma_future_in_present(d, x);
        if task_ids(d).contains(x) {
            let j = choose|j: int| 0 <= j < task_ids(d).len() && task_ids(d)[j] == x;
            assert(task_ids(s)[j] == x);
        }
        if task_ids(s).contains(x) && s.last().spec_id() != x {
            let j = choose|j: int| 0 <= j < task_ids(s).len() && task_ids(s)[j] == x;
            assert(j != s.len() - 1);
            assert(task_ids(d)[j] == x);
        }
        assert(task_ids(s)[s.len() - 1] == s.last().spec_id());
    }
}

proof fn lemma_future_in_push<F>(s: Seq<Task<F>>, t: Task<F>, x: TaskId)
    ensures
        future_in(s.push(t), x) == if x == t.spec_id() {
            Some(t.spec_future())
        } else {
            future_in(s, x)
        },
{
    assert(s.push(t).drop_last() =~= s);
}

/// Replacing a task by one with the same id changes only the future of that
/// id.
pub broadcast proof fn lemma_future_in_update<F>(s: Seq<Task<F>>, i: int, t: Task<F>, x: TaskId)
    requires
        task_ids(s).no_duplicates(),
        0 <= i < s.len(),
        t.spec_id() == s[i].spec_id(),
    ensures
        #[trigger] future_in(s.update(i, t), x) == if x == t.spec_id() {
            Some(t.spec_future())
        } else {
            future_in(s, x)
        },
    decreases s.len(),
{
    let n = s.len() - 1;
    let u = s.update(i, t);
    if i == n {
        assert(u.drop_last() =~= s.drop_last());
        if x == t.spec_id() {
        } else {
        }
    } else {
        assert(u.drop_last() =~= s.drop_last().update(i, t));
        assert(u.last() == s.last());
        lemma_no_duplicates_drop_last(s);
        lemma_future_in_update(s.drop_last(), i, t, x);
        assert(task_ids(s)[n] == s[n].spec_id());
        assert(task_ids(s)[i] == s[i].spec_id());
    }
}

/// The future of the task at `i` is the one found under its id.
proof fn lemma_future_in_at<F>(s: Seq<Task<F>>, i: int)
    requires
        task_ids(s).no_duplicates(),
        0 <= i < s.len(),
    ensures
        future_in(s, s[i].spec_id()) == Some(s[i].spec_future()),
{
    lemma_future_in_update(s, i, s[i], s[i].spec_id());
    assert(s.update(i, s[i]) =~= s);
}

/// Taking a task out removes its future and leaves the others.
proof fn lemma_future_in_remove<F>(s: Seq<Task<F>>, i: int, x: TaskId)
    requires
        task_ids(s).no_duplicates(),
        0 <= i < s.len(),
    ensures
        future_in(s.remove(i), x) == if x == s[i].spec_id() {
            None
        } else {
            future_in(s, x)
        },
    decreases s.len(),
{
    let n = s.len() - 1;
    let u = s.remove(i);
    lemma_no_duplicates_drop_last(s);
    if i == n {
        assert(u =~= s.drop_last());
        if x == s[i].spec_id() {
            lemma_future_in_present(s.drop_last(), x);
            if task_ids(s.drop_last()).contains(x) {
                let j = choose|j: int| 0 <= j < task_ids(s.drop_last()).len() && task_ids(s.drop_last())[j] == x;
                assert(task_ids(s)[j] == x);
                assert(task_ids(s)[n] == x);
            }
        }
    } else {
        assert(u.drop_last() =~= s.drop_last().remove(i));
        assert(u.last() == s.last());
        lemma_future_in_remove(s.drop_last(), i, x);
        assert(task_ids(s)[n] == s[n].spec_id());
        assert(task_ids(s)[i] == s[i].spec_id());
    }
}

pub struct Executor<F> {
    tasks: Vec<Task<F>>,
    waker_cache: Vec<TaskId>,
}

impl<F> Executor<F> {
    /// The tasks that have been spawned and have not completed.
    pub closed spec fn tasks(&self) -> Set<TaskId> {
        task_ids(self.tasks@).to_set()
    }

    /// The future of the task `id`, if it exists.
    pub closed spec fn future_of(&self, id: TaskId) -> Option<F> {
        future_in(self.tasks@, id)
    }

    /// The tasks that have a waker.
    pub closed spec fn wakers(&self) -> Set<TaskId> {
        self.waker_cache@.to_set()
    }

    pub closed spec fn wf(&self) -> bool {
        &&& task_ids(self.tasks@).no_duplicates()
        &&& self.waker_cache@.no_duplicates()
        &&& self.wakers().subset_of(self.tasks())
    }

    /// The result of `spawn(q0, task)` with id `id` on `e0`, leaving `e1` and `q1`.
    pub open spec fn spawn_post(e0: Self, q0: ReadyQueue, task: Task<F>, e1: Self, q1: ReadyQueue) -> bool {
        let id = task.spec_id();
        &&& e1.tasks() == e0.tasks().insert(id)
        &&& q1.ready() == q0.ready().push(id.0)
        &&& e1.wakers() == e0.wakers()
        &&& forall|x: TaskId|
            #[trigger] e1.future_of(x) == if x == id {
                Some(task.spec_future())
            } else {
                e0.future_of(x)
            }
    }

    /// The result of `next_ready(q0)` on `e0` is `r`, leaving `e1` and `q1`:
    /// wake-ups of tasks that no longer exist are dropped; the first wake-up
    /// of a task that exists is taken, and that task gets a waker.
    pub open spec fn next_ready_post(e0: Self, q0: ReadyQueue, r: Option<TaskId>, e1: Self, q1: ReadyQueue) -> bool {
        &&& e1.tasks() == e0.tasks()
        &&& forall|x: TaskId| #[trigger] e1.future_of(x) == e0.future_of(x)
        &&& match r {
            None => {
                &&& q1.ready() == Seq::<u64>::empty()
                &&& e1.wakers() == e0.wakers()
                &&& forall|j: int| 0 <= j < q0.ready().len() ==> !e0.tasks().contains(TaskId(#[trigger] q0.ready()[j]))
            },
            Some(id) => exists|k: int|
                #![trigger q0.ready()[k]]
                {
                    &&& 0 <= k < q0.ready().len()
                    &&& q0.ready()[k] == id.0
                    &&& e0.tasks().contains(id)
                    &&& forall|j: int| 0 <= j < k ==> !e0.tasks().contains(TaskId(#[trigger] q0.ready()[j]))
                    &&& q1.ready() == q0.ready().skip(k + 1)
                    &&& e1.wakers() == e0.wakers().insert(id)
                },
        }
    }

    /// The result of `complete(id)` on `e0`, leaving `e1`.
    pub open spec fn complete_post(e0: Self, id: TaskId, e1: Self) -> bool {
        &&& e1.tasks() == e0.tasks().remove(id)
        &&& e1.wakers() == e0.wakers().remove(id)
        &&& forall|x: TaskId|
            #[trigger] e1.future_of(x) == if x == id {
                None
            } else {
                e0.future_of(x)
            }
    }

    /// An executor with no tasks.
    pub fn new() -> (r: Executor<F>)
        ensures
            r.wf(),
            r.tasks() == Set::<TaskId>::empty(),
            r.wakers() == Set::<TaskId>::empty(),
    {
        let r = Executor { tasks: Vec::new(), waker_cache: Vec::new() };
        assert(task_ids(r.tasks@).to_set() =~= Set::<TaskId>::empty());
        assert(r.waker_cache@.to_set() =~= Set::<TaskId>::empty());
        r
    }

    /// Adds `task` and makes it ready. Its id must be new and the ready
    /// queue must have room.
    pub fn spawn(&mut self, queue: &mut ReadyQueue, task: Task<F>)
        requires
            old(self).wf(),
            old(queue).wf(),
            !old(self).tasks().contains(task.spec_id()),
            old(queue).ready().len() < TASK_QUEUE_CAPACITY,
        ensures
            final(self).wf(),
            final(queue).wf(),
            Self::spawn_post(*old(self), *old(queue), task, *final(self), *final(queue)),
    {
        let id = task.id();
        let ghost old_ids = task_ids(self.tasks@);
        let ghost old_tasks = self.tasks@;
        let ghost t = task;
        self.tasks.push(task);
        assert forall|x: TaskId| #[trigger] future_in(self.tasks@, x) == if x == id {
            Some(t.spec_future())
        } else {
            future_in(old_tasks, x)
        } by {
            lemma_future_in_push(old_tasks, t, x);
        }
        queue.wake(id);
        proof {
            let ids = task_ids(self.tasks@);
            assert(ids =~= old_ids.push(id));
            old_ids.lemma_push_to_set_commute(id);
            assert(!old_ids.contains(id));
            assert forall|a: int, b: int| 0 <= a < b < ids.len() implies ids[a] != ids[b] by {
                if b == ids.len() - 1 {
                    assert(old_ids.contains(ids[a]));
                }
            }
        }
    }

    /// Whether the task `id` exists.
    pub fn has_task(&self, id: TaskId) -> (r: bool)
        ensures
            r == self.tasks().contains(id),
    {
        match task_position(&self.tasks, id) {
            Some(i) => {
                assert(task_ids(self.tasks@)[i as int] == id);
                true
            },
            None => false,
        }
    }

    /// The future of the task `id`, to be polled; only that future can
    /// change through it.
    pub fn future_mut(&mut self, id: TaskId) -> (r: &mut F)
        requires
            old(self).wf(),
            old(self).tasks().contains(id),
        ensures
            old(self).future_of(id) == Some(*r),
            final(self).wf(),
            final(self).tasks() == old(self).tasks(),
            final(self).wakers() == old(self).wakers(),
            forall|x: TaskId|
                #[trigger] final(self).future_of(x) == if x == id {
                    Some(*final(r))
                } else {
                    old(self).future_of(x)
                },
    {
        broadcast use lemma_task_ids_update, lemma_future_in_update;

        let i = match task_position(&self.tasks, id) {
            Some(i) => i,
            None => {
                proof {
                    assert(task_ids(self.tasks@).contains(id));
                }
                unreached()
            },
        };
        proof {
            lemma_future_in_at(self.tasks@, i as int);
        }
        let task = &mut self.tasks[i];
        task.future_mut()
    }

    /// The next task to poll: the first woken task that still exists. It
    /// gets a waker if it has none yet.
    pub fn next_ready(&mut self, queue: &mut ReadyQueue) -> (r: Option<TaskId>)
        requires
            old(self).wf(),
            old(queue).wf(),
        ensures
            final(self).wf(),
            final(queue).wf(),
            Self::next_ready_post(*old(self), *old(queue), r, *final(self), *final(queue)),
    {
        let ghost start = queue.ready();
        let ghost mut k: int = 0;
        loop
            invariant
                self.wf(),
                queue.wf(),
                self.tasks == old(self).tasks,
                self.waker_cache == old(self).waker_cache,
                start == old(queue).ready(),
                0 <= k <= start.len(),
                queue.ready() == start.skip(k),
                forall|j: int| 0 <= j < k ==> !old(self).tasks().contains(TaskId(#[trigger] start[j])),
            decreases queue.ready().len(),
        {
            match queue_pop(&mut queue.queue) {
                None => {
                    proof {
                        assert(k == start.len());
                        assert(start.skip(k) =~= Seq::<u64>::empty());
                    }
                    return None;
                },
                Some(raw) => {
                    let id = TaskId(raw);
                    proof {
                        assert(start.skip(k)[0] == start[k]);
                        assert(start.skip(k).drop_first() =~= start.skip(k + 1));
                    }
                    match task_position(&self.tasks, id) {
                        Some(i) => {
                            proof {
                                assert(task_ids(self.tasks@)[i as int] == id);
                            }
                            match position(&self.waker_cache, id) {
                                Some(_) => {
                                    proof {
                                        assert(self.waker_cache@.to_set() =~= old(self).waker_cache@.to_set().insert(id));
                                    }
                                },
                                None => {
                                    self.waker_cache.push(id);
                                    proof {
                                        old(self).waker_cache@.lemma_push_to_set_commute(id);
                                        assert forall|a: int, b: int| 0 <= a < b < self.waker_cache@.len() implies self.waker_cache@[a] != self.waker_cache@[b] by {
                                            if b == self.waker_cache@.len() - 1 {
                                                assert(old(self).waker_cache@.contains(self.waker_cache@[a]));
                                            }
                                        }
                                    }
                                },
                            }
                            proof {
                                assert(start[k] == id.0);
                            }
                            return Some(id);
                        },
                        None => {
                            proof {
                                k = k + 1;
                            }
                        },
                    }
                },
            }
        }
    }

    /// Removes the task `id` and its waker: it returned ready.
    pub fn complete(&mut self, id: TaskId)
        requires
            old(self).wf(),
        ensures
            final(self).wf(),
            Self::complete_post(*old(self), id, *final(self)),
    {
        if let Some(i) = task_position(&self.tasks, id) {
            let ghost before = self.tasks@;
            let _ = self.tasks.remove(i);
            proof {
                assert(task_ids(self.tasks@) =~= task_ids(before).remove(i as int));
                lemma_remove_from_set(task_ids(before), i as int);
                assert forall|x: TaskId| #[trigger] future_in(self.tasks@, x) == if x == id {
                    None
                } else {
                    future_in(before, x)
                } by {
                    lemma_future_in_remove(before, i as int, x);
                }
            }
        } else {
            assert(task_ids(self.tasks@).to_set() =~= task_ids(self.tasks@).to_set().remove(id));
            assert forall|x: TaskId| #[trigger] future_in(self.tasks@, x) == if x == id {
                None
            } else {
                future_in(self.tasks@, x)
            } by {
                lemma_future_in_present(self.tasks@, x);
            }
        }
        if let Some(i) = position(&self.waker_cache, id) {
            let ghost before = self.waker_cache@;
            let _ = self.waker_cache.remove(i);
            proof {
                lemma_remove_from_set(before, i as int);
            }
        } else {
            assert(self.waker_cache@.to_set() =~= self.waker_cache@.to_set().remove(id));
        }
    }
}

/// Taking an element out of a sequence without duplicates takes it out of
/// the set of its elements, and leaves no duplicates.
proof fn lemma_remove_from_set(s: Seq<TaskId>, i: int)
    requires
        s.no_duplicates(),
        0 <= i < s.len(),
    ensures
        s.remove(i).to_set() == s.to_set().remove(s[i]),
        s.remove(i).no_duplicates(),
{
    let t = s.remove(i);
    assert forall|x: TaskId| t.contains(x) <==> s.contains(x) && x != s[i] by {
        if s.contains(x) && x != s[i] {
            let a = choose|a: int| 0 <= a < s.len() && s[a] == x;
            if a < i {
                assert(t[a] == x);
            } else {
                assert(t[a - 1] == x);
            }
        }
        if t.contains(x) {
            let a = choose|a: int| 0 <= a < t.len() && t[a] == x;
            if a < i {
                assert(s[a] == x);
            } else {
                assert(s[a + 1] == x);
            }
        }
    }
    assert(t.to_set() =~= s.to_set().remove(s[i]));
}

/// A task that was just spawned, with no other existing task woken ahead of
/// it, is the next one polled.
pub proof fn lemma_spawned_task_is_polled<F>(
    e0: Executor<F>,
    q0: ReadyQueue,
    task: Task<F>,
    e1: Executor<F>,
    q1: ReadyQueue,
    r: Option<TaskId>,
    e2: Executor<F>,
    q2: ReadyQueue,
)
    requires
        Executor::<F>::spawn_post(e0, q0, task, e1, q1),
        forall|j: int| 0 <= j < q0.ready().len() ==> !e1.tasks().contains(TaskId(#[trigger] q0.ready()[j])),
        Executor::<F>::next_ready_post(e1, q1, r, e2, q2),
    ensures
        r == Some(task.spec_id()),
        e2.future_of(task.spec_id()) == Some(task.spec_future()),
{
    let id = task.spec_id();
    assert(e1.future_of(id) == Some(task.spec_future()));
    let n = q0.ready().len() as int;
    assert(q1.ready()[n] == id.0);
    assert(e1.tasks().contains(id));
    match r {
        None => {
            assert(!e1.tasks().contains(TaskId(q1.ready()[n])));
        },
        Some(t) => {
            let k = choose|k: int|
                #![trigger q1.ready()[k]]
                {
                    &&& 0 <= k < q1.ready().len()
                    &&& q1.ready()[k] == t.0
                    &&& e1.tasks().contains(t)
                    &&& forall|j: int| 0 <= j < k ==> !e1.tasks().contains(TaskId(#[trigger] q1.ready()[j]))
                    &&& q2.ready() == q1.ready().skip(k + 1)
                    &&& e2.wakers() == e1.wakers().insert(t)
                };
            if k < n {
                assert(q1.ready()[k] == q0.ready()[k]);
                assert(TaskId(q1.ready()[k]) == t);
            } else if k > n {
                assert(!e1.tasks().contains(TaskId(q1.ready()[n])));
            }
        },
    }
}

/// A task that completed is never polled again, and its waker is gone.
pub proof fn lemma_completed_task_is_not_polled<F>(
    e0: Executor<F>,
    id: TaskId,
    e1: Executor<F>,
    q1: ReadyQueue,
    r: Option<TaskId>,
    e2: Executor<F>,
    q2: ReadyQueue,
)
    requires
        Executor::<F>::complete_post(e0, id, e1),
        Executor::<F>::next_ready_post(e1, q1, r, e2, q2),
    ensures
        r != Some(id),
        !e1.wakers().contains(id),
{
}

/// A task that exists and has a wake-up in the ready queue is either the
/// next one polled or moves closer to the front of the queue, and still
/// exists: every woken task is polled in time.
pub proof fn lemma_ready_task_advances<F>(
    e1: Executor<F>,
    q1: ReadyQueue,
    id: TaskId,
    k: int,
    r: Option<TaskId>,
    e2: Executor<F>,
    q2: ReadyQueue,
)
    requires
        e1.tasks().contains(id),
        0 <= k < q1.ready().len(),
        q1.ready()[k] == id.0,
        Executor::<F>::next_ready_post(e1, q1, r, e2, q2),
    ensures
        r == Some(id) || (exists|k2: int| 0 <= k2 < k && k2 < q2.ready().len() && #[trigger] q2.ready()[k2] == id.0),
        e2.tasks().contains(id),
{
    assert(TaskId(q1.ready()[k]) == id);
    match r {
        None => {},
        Some(t) => {
            let k0 = choose|k0: int|
                #![trigger q1.ready()[k0]]
                {
                    &&& 0 <= k0 < q1.ready().len()
                    &&& q1.ready()[k0] == t.0
                    &&& e1.tasks().contains(t)
                    &&& forall|j: int| 0 <= j < k0 ==> !e1.tasks().contains(TaskId(#[trigger] q1.ready()[j]))
                    &&& q2.ready() == q1.ready().skip(k0 + 1)
                    &&& e2.wakers() == e1.wakers().insert(t)
                };
            if k0 == k {
                assert(t == TaskId(t.0));
            } else {
                assert(k0 < k);
                assert(q2.ready()[k - k0 - 1] == id.0);
            }
        },
    }
}

/// Draining the ready queue: over consecutive calls of `next_ready`, a
/// task that exists and whose wake-up stands at position `k` is returned by
/// one of the first `k + 1` calls.
pub proof fn lemma_drain_polls_task<F>(
    es: Seq<Executor<F>>,
    qs: Seq<ReadyQueue>,
    rs: Seq<Option<TaskId>>,
    id: TaskId,
    k: int,
)
    requires
        es.len() == rs.len() + 1,
        qs.len() == rs.len() + 1,
        forall|s: int|
            0 <= s < rs.len() ==> Executor::<F>::next_ready_post(
                #[trigger] es[s],
                qs[s],
                rs[s],
                es[s + 1],
                qs[s + 1],
            ),
        es[0].tasks().contains(id),
        0 <= k < qs[0].ready().len(),
        qs[0].ready()[k] == id.0,
        k < rs.len(),
    ensures
        exists|s: int| 0 <= s <= k && #[trigger] rs[s] == Some(id),
    decreases k,
{
    assert(Executor::<F>::next_ready_post(es[0], qs[0], rs[0], es[1], qs[1]));
    lemma_ready_task_advances(es[0], qs[0], id, k, rs[0], es[1], qs[1]);
    if rs[0] == Some(id) {
        assert(rs[0] == Some(id));
    } else {
        let k2 = choose|k2: int| 0 <= k2 < k && k2 < qs[1].ready().len() && #[trigger] qs[1].ready()[k2] == id.0;
        let es1 = es.skip(1);
        let qs1 = qs.skip(1);
        let rs1 = rs.skip(1);
        assert forall|s: int| 0 <= s < rs1.len() implies Executor::<F>::next_ready_post(
            #[trigger] es1[s],
            qs1[s],
            rs1[s],
            es1[s + 1],
            qs1[s + 1],
        ) by {
            assert(es1[s] == es[s + 1]);
            assert(Executor::<F>::next_ready_post(es[s + 1], qs[s + 1], rs[s + 1], es[s + 2], qs[s + 2]));
        }
        assert(es1[0] == es[1]);
        assert(qs1[0] == qs[1]);
        lemma_drain_polls_task(es1, qs1, rs1, id, k2);
        let s = choose|s: int| 0 <= s <= k2 && #[trigger] rs1[s] == Some(id);
        assert(rs[s + 1] == Some(id));
    }
}

} // verus!
