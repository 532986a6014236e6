//! The scheduler: a ready queue of task handles and stride selection.

use vstd::prelude::*;
use std::collections::VecDeque;
use crate::task::{task_views, TaskControlBlock, TaskStatus, TaskView};

verus! {

/// The ready queue. A handle is the index of a task in the task table.
pub struct TaskManager {
    pub ready_queue: VecDeque<usize>,
}

impl View for TaskManager {
    type V = Seq<usize>;

    open spec fn view(&self) -> Seq<usize> {
        self.ready_queue@
    }
}

/// Every handle of the queue names a task of the table.
pub open spec fn handles_valid(queue: Seq<usize>, n: nat) -> bool {
    forall|i: int| 0 <= i < queue.len() ==> #[trigger] queue[i] < n
}

/// The state of a selection after up to `n` more handles have been taken
/// from the front of `queue`: the candidate, and the queue with every
/// loser put back at its tail. A handle taken replaces the candidate only
/// if its pass is strictly smaller; the one that loses goes to the tail.
pub open spec fn select_steps(tasks: Seq<TaskView>, cand: Option<usize>, queue: Seq<usize>, n: nat) -> (
    Option<usize>,
    Seq<usize>,
)
    decreases n,
{
    if n == 0 || queue.len() == 0 {
        (cand, queue)
    } else {
        let t = queue[0];
        let rest = queue.drop_first();
        match cand {
            None => select_steps(tasks, Some(t), rest, (n - 1) as nat),
            Some(c) => if tasks[c as int].pass > tasks[t as int].pass {
                select_steps(tasks, Some(t), rest.push(c), (n - 1) as nat)
            } else {
                select_steps(tasks, Some(c), rest.push(t), (n - 1) as nat)
            },
        }
    }
}

/// The outcome of one selection on `queue`: the handle selected, if the
/// queue is not empty, and the queue that is left.
pub open spec fn selection(tasks: Seq<TaskView>, queue: Seq<usize>) -> (Option<usize>, Seq<usize>) {
    select_steps(tasks, None, queue, queue.len())
}

/// The task after it has been selected once: its pass has grown by its
/// stride.
pub open spec fn charged(t: TaskView) -> TaskView {
    TaskView { pass: (t.pass + t.stride) as isize, ..t }
}

impl TaskManager {
    /// An empty ready queue.
    pub fn new() -> (r: Self)
        ensures
            r@ == Seq::<usize>::empty(),
    {
        TaskManager { ready_queue: VecDeque::new() }
    }

    /// Appends a task to the tail of the ready queue.
    pub fn add(&mut self, task: usize)
        ensures
            final(self)@ == old(self)@.push(task),
    {
        self.ready_queue.push_back(task);
    }

    /// The number of tasks in the ready queue.
    pub fn len(&self) -> (r: usize)
        ensures
            r == self@.len(),
    {
        self.ready_queue.len()
    }

    /// Selects the task to run next by one pass over the ready queue and
    /// charges it one stride. Returns nothing, and changes nothing, if the
    /// queue is empty.
    pub fn fetch(&mut self, tasks: &mut Vec<TaskControlBlock>) -> (r: Option<usize>)
        requires
            handles_valid(old(self)@, old(tasks)@.len()),
            selection(task_views(old(tasks)@), old(self)@).0 matches Some(w) ==> isize::MIN
                <= task_views(old(tasks)@)[w as int].pass + task_views(old(tasks)@)[w as int].stride
                <= isize::MAX,
        ensures
            r == selection(task_views(old(tasks)@), old(self)@).0,
            final(self)@ == selection(task_views(old(tasks)@), old(self)@).1,
            r is None <==> old(self)@.len() == 0,
            final(tasks)@.len() == old(tasks)@.len(),
            match r {
                None => task_views(final(tasks)@) == task_views(old(tasks)@),
                Some(w) => w < old(tasks)@.len() && task_views(final(tasks)@) == task_views(
                    old(tasks)@,
                ).update(w as int, charged(task_views(old(tasks)@)[w as int])),
            },
            handles_valid(final(self)@, final(tasks)@.len()),
    {
        let ghost views = task_views(tasks@);
        let ghost queue0 = self@;
        let mut task: Option<usize> = None;
        let len: usize = self.ready_queue.len();
        let mut i: usize = 0;
        while i < len
            invariant
                i <= len,
                len == queue0.len(),
                views == task_views(tasks@),
                self@.len() + (if task is Some { 1int } else { 0int }) == len,
                i == 0 <==> task is None,
                handles_valid(self@, tasks@.len()),
                task matches Some(c) ==> c < tasks@.len(),
                select_steps(views, task, self@, (len - i) as nat) == selection(views, queue0),
            decreases len - i,
        {
            let task_new = self.ready_queue.pop_front().unwrap();
            assert(task_new < tasks@.len());
            let ghost rest = self@;
            match task {
                Some(task_i) => {
                    assert(views[task_i as int] == tasks@[task_i as int]@);
                    assert(views[task_new as int] == tasks@[task_new as int]@);
                    if tasks[task_i].inner.pass > tasks[task_new].inner.pass {
                        self.ready_queue.push_back(task_i);
                        task = Some(task_new);
                    } else {
                        self.ready_queue.push_back(task_new);
                    }
                },
                None => {
                    task = Some(task_new);
                },
            }
            i = i + 1;
        }
        proof {
            lemma_selection_some(views, queue0);
        }
        match task {
            Some(w) => {
                assert(views[w as int] == tasks@[w as int]@);
                let pass: isize = tasks[w].inner.pass;
                let stride: isize = tasks[w].inner.stride;
                tasks[w].inner.pass = pass + stride;
                assert(task_views(tasks@) =~= views.update(w as int, charged(views[w as int])));
            },
            None => {},
        }
        task
    }
}

/// Makes a blocked task ready again and hands it to the scheduler.
pub fn wakeup_task(tasks: &mut Vec<TaskControlBlock>, manager: &mut TaskManager, task: usize)
    requires
        task < old(tasks)@.len(),
    ensures
        task_views(final(tasks)@) == task_views(old(tasks)@).update(
            task as int,
            (TaskView { status: TaskStatus::Ready, ..old(tasks)@[task as int]@ }),
        ),
        final(manager)@ == old(manager)@.push(task),
{
    let ghost views = task_views(tasks@);
    tasks[task].inner.task_status = TaskStatus::Ready;
    manager.add(task);
    assert(task_views(tasks@) =~= views.update(
        task as int,
        (TaskView { status: TaskStatus::Ready, ..views[task as int] }),
    ));
}

/// A selection finds a task exactly when the queue is not empty.
pub proof fn lemma_selection_some(tasks: Seq<TaskView>, queue: Seq<usize>)
    ensures
        selection(tasks, queue).0 is None <==> queue.len() == 0,
{
    if queue.len() > 0 {
        lemma_select_steps_keeps_candidate(
            tasks,
            Some(queue[0]),
            queue.drop_first(),
            (queue.len() - 1) as nat,
        );
    }
}

/// Once a selection has a candidate it keeps one.
pub proof fn lemma_select_steps_keeps_candidate(
    tasks: Seq<TaskView>,
    cand: Option<usize>,
    queue: Seq<usize>,
    n: nat,
)
    requires
        cand is Some,
    ensures
        select_steps(tasks, cand, queue, n).0 is Some,
    decreases n,
{
    if n == 0 || queue.len() == 0 {
    } else {
        let t = queue[0];
        let rest = queue.drop_first();
        let c = cand.unwrap();
        if tasks[c as int].pass > tasks[t as int].pass {
            lemma_select_steps_keeps_candidate(tasks, Some(t), rest.push(c), (n - 1) as nat);
        } else {
            lemma_select_steps_keeps_candidate(tasks, Some(c), rest.push(t), (n - 1) as nat);
        }
    }
}

} // verus!
