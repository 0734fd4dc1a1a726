//! Queues of tasks that wait for a worker.
use vstd::multiset::*;
use vstd::prelude::*;
use vstd::string::*;

use crate::common;
use crate::common::{epoch_millis, reversed, ActantError};
use crate::runtime::workflow::task;
use crate::runtime::workflow::task::{TaskDefinition, TaskView};
use crate::text::same_text;

verus! {

/// The name of first-in-first-out scheduling.
pub const FIFO: &'static str = "fifo";

/// The name of scheduling by priority.
pub const PRIORITY: &'static str = "priority";

/// Whether `name` names a kind of scheduling.
pub fn is_registered(name: &str) -> (b: bool)
    ensures
        b == (name@ == FIFO@ || name@ == PRIORITY@),
{
    same_text(name, FIFO) || same_text(name, PRIORITY)
}

/// The names of the kinds of scheduling, in order.
pub fn registered_names() -> (names: Vec<String>)
    ensures
        names@.len() == 2,
        names@[0]@ == FIFO@,
        names@[1]@ == PRIORITY@,
{
    let mut names: Vec<String> = Vec::new();
    names.push(FIFO.to_owned());
    names.push(PRIORITY.to_owned());
    names
}

/// The error of a scheduler that was closed.
pub open spec fn closed_error(e: ActantError) -> bool {
    e matches ActantError::Internal(m) && m@ == "scheduler is closed"@
}

/// A task as it is queued at time `now`.
pub open spec fn stamped(t: TaskView, now: u64) -> TaskView {
    TaskView { enqueued_at_ms: now, ..t }
}

/// A strategy by which tasks wait for a worker.
pub trait Scheduler: Sized {
    /// The tasks that wait, in the order in which they would be handed out.
    spec fn queued(&self) -> Seq<TaskView>;

    /// No more tasks are taken.
    spec fn shut(&self) -> bool;

    /// The queue is in order.
    spec fn sound(&self) -> bool;

    /// Queues a task at time `now`.
    fn enqueue_at(&mut self, t: TaskDefinition, now: u64) -> (r: Result<(), ActantError>)
        requires
            old(self).sound(),
        ensures
            final(self).sound(),
            final(self).shut() == old(self).shut(),
            r is Ok <==> !old(self).shut(),
            match r {
                Ok(()) => final(self).queued().to_multiset() == old(
                    self,
                ).queued().to_multiset().insert(stamped(t@, now)),
                Err(e) => closed_error(e) && final(self).queued() == old(self).queued(),
            },
    ;

    /// Hands out one task, where one waits.
    fn try_dequeue(&mut self) -> (t: Option<TaskDefinition>)
        requires
            old(self).sound(),
        ensures
            final(self).sound(),
            final(self).shut() == old(self).shut(),
            match t {
                Some(x) => {
                    &&& old(self).queued().len() > 0
                    &&& x@ == old(self).queued()[0]
                    &&& final(self).queued() == old(self).queued().skip(1)
                },
                None => old(self).queued().len() == 0 && final(self).queued() == old(
                    self,
                ).queued(),
            },
    ;

    /// Hands out up to `limit` tasks.
    fn dequeue_batch(&mut self, limit: usize) -> (tasks: Vec<TaskDefinition>)
        requires
            old(self).sound(),
        ensures
            final(self).sound(),
            final(self).shut() == old(self).shut(),
            ({
                let n = if limit <= old(self).queued().len() {
                    limit as int
                } else {
                    old(self).queued().len() as int
                };
                &&& task::task_views(tasks@) == old(self).queued().take(n)
                &&& final(self).queued() == old(self).queued().skip(n)
            }),
    ;

    /// Takes out the tasks that are meant for no particular node. The others stay.
    fn drain_unrouted(&mut self) -> (tasks: Vec<TaskDefinition>)
        requires
            old(self).sound(),
        ensures
            final(self).sound(),
            final(self).shut() == old(self).shut(),
            task::task_views(tasks@) == old(self).queued().filter(
                |t: TaskView| t.target_node is None,
            ),
            final(self).queued() == old(self).queued().filter(
                |t: TaskView| t.target_node is Some,
            ),
    ;

    /// The number of tasks that wait.
    fn len(&self) -> (n: usize)
        ensures
            n == self.queued().len(),
    ;

    /// Whether no task waits.
    fn is_empty(&self) -> (b: bool)
        ensures
            b == (self.queued().len() == 0),
    ;

    /// Takes no more tasks. Those that wait are still handed out.
    fn close(&mut self)
        requires
            old(self).sound(),
        ensures
            final(self).sound(),
            final(self).shut(),
            final(self).queued() == old(self).queued(),
    ;

    /// Whether no more tasks are taken.
    fn is_closed(&self) -> (b: bool)
        ensures
            b == self.shut(),
    ;
}

/// A queue of tasks, first in first out or by priority.
#[derive(Debug)]
pub struct InnerScheduler {
    /// The tasks in the order in which they are handed out.
    pub queue: Vec<TaskDefinition>,
    /// Tasks of higher priority come first.
    pub ranked: bool,
    pub closed: bool,
}

/// How many of the first tasks have at least the given priority.
pub open spec fn leading(queue: Seq<TaskView>, priority: i32) -> int
    decreases queue.len(),
{
    if queue.len() == 0 || queue[0].priority < priority {
        0
    } else {
        1 + leading(queue.drop_first(), priority)
    }
}

/// Where a task joins the queue.
pub open spec fn place(queue: Seq<TaskView>, ranked: bool, priority: i32) -> int {
    if ranked {
        leading(queue, priority)
    } else {
        queue.len() as int
    }
}

/// The queue with a task in it.
pub open spec fn joined(queue: Seq<TaskView>, ranked: bool, t: TaskView) -> Seq<TaskView> {
    queue.insert(place(queue, ranked, t.priority), t)
}

/// The queue with tasks in it that join one after another.
pub open spec fn all_joined(
    queue: Seq<TaskView>,
    ranked: bool,
    tasks: Seq<TaskView>,
    now: u64,
) -> Seq<TaskView>
    decreases tasks.len(),
{
    if tasks.len() == 0 {
        queue
    } else {
        joined(
            all_joined(queue, ranked, tasks.drop_last(), now),
            ranked,
            stamped(tasks.last(), now),
        )
    }
}

/// Tasks of higher priority come first.
pub open spec fn descending(queue: Seq<TaskView>) -> bool {
    forall|i: int, j: int|
        0 <= i < j < queue.len() ==> (#[trigger] queue[i]).priority >= (
        #[trigger] queue[j]).priority
}

proof fn lemma_leading(queue: Seq<TaskView>, priority: i32)
    ensures
        0 <= leading(queue, priority) <= queue.len(),
        forall|i: int|
            0 <= i < leading(queue, priority) ==> (#[trigger] queue[i]).priority >= priority,
        leading(queue, priority) < queue.len() ==> queue[leading(queue, priority)].priority
            < priority,
    decreases queue.len(),
{
    if queue.len() > 0 && queue[0].priority >= priority {
        let rest = queue.drop_first();
        lemma_leading(rest, priority);
        assert forall|i: int| 0 <= i < leading(queue, priority) implies (
        #[trigger] queue[i]).priority >= priority by {
            if i > 0 {
                assert(queue[i] == rest[i - 1]);
            }
        }
    }
}

/// In a queue by priority tasks of higher priority stay first, and a task that joins comes
/// after every task of its priority and before every task of a lower one.
pub proof fn law_priority_order(queue: Seq<TaskView>, t: TaskView)
    requires
        descending(queue),
    ensures
        descending(joined(queue, true, t)),
        ({
            let p = place(queue, true, t.priority);
            &&& 0 <= p <= queue.len()
            &&& joined(queue, true, t)[p] == t
            &&& forall|i: int|
                0 <= i < queue.len() && (#[trigger] queue[i]).priority >= t.priority ==> i < p
        }),
{
    lemma_leading(queue, t.priority);
}

/// Tasks that join one after another leave a queue by priority in order.
pub proof fn lemma_all_joined_descending(queue: Seq<TaskView>, tasks: Seq<TaskView>, now: u64)
    requires
        descending(queue),
    ensures
        descending(all_joined(queue, true, tasks, now)),
    decreases tasks.len(),
{
    if tasks.len() > 0 {
        lemma_all_joined_descending(queue, tasks.drop_last(), now);
        law_priority_order(
            all_joined(queue, true, tasks.drop_last(), now),
            stamped(tasks.last(), now),
        );
    }
}

/// In a first-in-first-out queue a task that joins comes last.
pub proof fn law_fifo_order(queue: Seq<TaskView>, t: TaskView)
    ensures
        joined(queue, false, t) == queue.push(t),
{
    assert(joined(queue, false, t) =~= queue.push(t));
}

proof fn lemma_insert_counts(queue: Seq<TaskView>, p: int, t: TaskView)
    requires
        0 <= p <= queue.len(),
    ensures
        queue.insert(p, t).to_multiset() == queue.to_multiset().insert(t),
{
    let after = queue.insert(p, t);
    after.to_multiset_ensures();
    assert(after.remove(p) =~= queue);
    assert(after[p] == t);
    assert(after.contains(t));
    assert(after.to_multiset() =~= queue.to_multiset().insert(t));
}

impl InnerScheduler {
    /// A first-in-first-out queue.
    pub fn fifo() -> (s: Self)
        ensures
            s.sound(),
            !s.ranked,
            !s.shut(),
            s.queued() == Seq::<TaskView>::empty(),
    {
        let s = InnerScheduler { queue: Vec::new(), ranked: false, closed: false };
        assert(s.queued() =~= Seq::<TaskView>::empty());
        s
    }

    /// A queue by priority.
    pub fn priority() -> (s: Self)
        ensures
            s.sound(),
            s.ranked,
            !s.shut(),
            s.queued() == Seq::<TaskView>::empty(),
    {
        let s = InnerScheduler { queue: Vec::new(), ranked: true, closed: false };
        assert(s.queued() =~= Seq::<TaskView>::empty());
        s
    }

    /// Changes a first-in-first-out queue to one by priority, without its tasks. It stays
    /// closed where it was.
    pub fn switch_to_priority(&mut self)
        requires
            old(self).sound(),
        ensures
            final(self).sound(),
            final(self).ranked,
            final(self).shut() == old(self).shut(),
            final(self).queued() == (if old(self).ranked {
                old(self).queued()
            } else {
                Seq::empty()
            }),
    {
        if !self.ranked {
            self.queue = Vec::new();
            self.ranked = true;
            assert(self.queued() =~= Seq::empty());
        }
    }

    fn insert(&mut self, t: TaskDefinition)
        requires
            old(self).sound(),
        ensures
            final(self).sound(),
            final(self).ranked == old(self).ranked,
            final(self).closed == old(self).closed,
            final(self).queued() == joined(old(self).queued(), old(self).ranked, t@),
            final(self).queued().to_multiset() == old(self).queued().to_multiset().insert(t@),
    {
        let ghost before = self.queued();
        let n: usize = self.queue.len();
        let mut p: usize = n;
        proof {
            lemma_leading(before, t@.priority);
        }
        if self.ranked {
            p = 0;
            while p < n && self.queue[p].priority >= t.priority
                invariant
                    p <= n,
                    n == self.queue@.len(),
                    before == task::task_views(self.queue@),
                    0 <= leading(before, t@.priority) <= n,
                    forall|i: int|
                        0 <= i < leading(before, t@.priority) ==> (
                        #[trigger] before[i]).priority >= t@.priority,
                    leading(before, t@.priority) < n ==> before[leading(
                        before,
                        t@.priority,
                    )].priority < t@.priority,
                    forall|i: int| 0 <= i < p ==> (#[trigger] before[i]).priority >= t@.priority,
                decreases n - p,
            {
                assert(before[p as int] == self.queue@[p as int]@);
                p += 1;
            }
            proof {
                let l = leading(before, t@.priority);
                if l < p {
                    assert(before[l].priority >= t@.priority);
                }
                if p < l {
                    assert(before[p as int].priority >= t@.priority);
                    assert(before[p as int] == self.queue@[p as int]@);
                }
            }
        }
        self.queue.insert(p, t);
        proof {
            assert(self.queued() =~= before.insert(p as int, t@));
            lemma_insert_counts(before, p as int, t@);
            if self.ranked {
                law_priority_order(before, t@);
            }
        }
    }

    /// Queues a task.
    pub fn enqueue(&mut self, t: TaskDefinition) -> (r: Result<(), ActantError>)
        requires
            old(self).sound(),
        ensures
            final(self).sound(),
            final(self).shut() == old(self).shut(),
            final(self).ranked == old(self).ranked,
            match r {
                Ok(()) => !old(self).shut() && exists|now: u64|
                    final(self).queued() == #[trigger] joined(
                        old(self).queued(),
                        old(self).ranked,
                        stamped(t@, now),
                    ),
                Err(e) => old(self).shut() && closed_error(e) && final(self).queued() == old(
                    self,
                ).queued(),
            },
    {
        let now: u64 = epoch_millis();
        let ghost v = joined(self.queued(), self.ranked, stamped(t@, now));
        self.enqueue_at(t, now)
    }

    /// Queues tasks at time `now`, one after another.
    pub fn enqueue_batch(&mut self, tasks: Vec<TaskDefinition>, now: u64) -> (r: Result<
        (),
        ActantError,
    >)
        requires
            old(self).sound(),
        ensures
            final(self).sound(),
            final(self).shut() == old(self).shut(),
            final(self).ranked == old(self).ranked,
            match r {
                Ok(()) => !old(self).shut() && final(self).queued() == all_joined(
                    old(self).queued(),
                    old(self).ranked,
                    task::task_views(tasks@),
                    now,
                ),
                Err(e) => old(self).shut() && closed_error(e) && final(self).queued() == old(
                    self,
                ).queued(),
            },
    {
        if self.closed {
            return Err(ActantError::Internal("scheduler is closed".to_owned()));
        }
        let ghost before = self.queued();
        let ghost all = tasks@;
        let ghost views = task::task_views(tasks@);
        let mut queue = reversed(tasks);
        let ghost mut done: int = 0;
        assert(all.skip(0) =~= all);
        assert(views.take(0).len() == 0);
        while queue.len() > 0
            invariant
                0 <= done <= all.len(),
                queue@.reverse() == all.skip(done),
                views == task::task_views(all),
                self.sound(),
                self.ranked == old(self).ranked,
                !self.closed,
                self.queued() == all_joined(before, self.ranked, views.take(done), now),
            decreases queue@.len(),
        {
            let ghost q = queue@;
            if let Some(t) = queue.pop() {
                proof {
                    common::lemma_next(all, done, q);
                    assert(queue@ =~= q.drop_last());
                    assert(views.take(done + 1).drop_last() =~= views.take(done));
                    assert(views.take(done + 1).last() == t@);
                }
                let mut t = t;
                t.enqueued_at_ms = now;
                self.insert(t);
                proof {
                    done = done + 1;
                }
            }
        }
        assert(views.take(done) =~= views);
        Ok(())
    }

    /// What a consumer that waits for a task does next.
    pub fn next_step(&mut self) -> (s: DequeueStep)
        requires
            old(self).sound(),
        ensures
            final(self).sound(),
            final(self).shut() == old(self).shut(),
            final(self).ranked == old(self).ranked,
            match s {
                DequeueStep::Run(t) => {
                    &&& old(self).queued().len() > 0
                    &&& t@ == old(self).queued()[0]
                    &&& final(self).queued() == old(self).queued().skip(1)
                },
                DequeueStep::Stop => old(self).queued().len() == 0 && old(self).shut()
                    && final(self).queued() == old(self).queued(),
                DequeueStep::Wait => old(self).queued().len() == 0 && !old(self).shut()
                    && final(self).queued() == old(self).queued(),
            },
    {
        match self.try_dequeue() {
            Some(t) => DequeueStep::Run(t),
            None => if self.closed {
                DequeueStep::Stop
            } else {
                DequeueStep::Wait
            },
        }
    }
}

/// What a consumer that waits for a task does next.
#[derive(Debug)]
pub enum DequeueStep {
    /// Run the task.
    Run(TaskDefinition),
    /// Wait until a task is queued or the scheduler is closed.
    Wait,
    /// Stop: no task will come.
    Stop,
}

impl Scheduler for InnerScheduler {
    open spec fn queued(&self) -> Seq<TaskView> {
        task::task_views(self.queue@)
    }

    open spec fn shut(&self) -> bool {
        self.closed
    }

    open spec fn sound(&self) -> bool {
        self.ranked ==> descending(self.queued())
    }

    fn enqueue_at(&mut self, t: TaskDefinition, now: u64) -> (r: Result<(), ActantError>)
        ensures
            final(self).ranked == old(self).ranked,
            r is Ok ==> final(self).queued() == joined(
                old(self).queued(),
                old(self).ranked,
                stamped(t@, now),
            ),
    {
        if self.closed {
            return Err(ActantError::Internal("scheduler is closed".to_owned()));
        }
        let mut t = t;
        t.enqueued_at_ms = now;
        self.insert(t);
        Ok(())
    }

    fn try_dequeue(&mut self) -> (t: Option<TaskDefinition>)
        ensures
            final(self).ranked == old(self).ranked,
    {
        if self.queue.len() == 0 {
            return None;
        }
        let ghost before = self.queued();
        let ghost raw = self.queue@;
        let t = self.queue.remove(0);
        proof {
            assert(self.queue@ =~= raw.skip(1));
            assert(self.queued() =~= before.skip(1));
        }
        Some(t)
    }

    fn dequeue_batch(&mut self, limit: usize) -> (tasks: Vec<TaskDefinition>)
        ensures
            final(self).ranked == old(self).ranked,
    {
        let ghost before = self.queued();
        let ghost raw = self.queue@;
        let n: usize = if limit <= self.queue.len() {
            limit
        } else {
            self.queue.len()
        };
        let mut rest = self.queue.split_off(n);
        std::mem::swap(&mut rest, &mut self.queue);
        proof {
            assert(task::task_views(rest@) =~= before.take(n as int));
            assert(self.queued() =~= before.skip(n as int));
        }
        rest
    }

    fn drain_unrouted(&mut self) -> (tasks: Vec<TaskDefinition>)
        ensures
            final(self).ranked == old(self).ranked,
    {
        let ghost before = self.queued();
        let ghost all = self.queue@;
        let ghost free = |t: TaskView| t.target_node is None;
        let ghost bound = |t: TaskView| t.target_node is Some;
        let mut taken: Vec<TaskDefinition> = Vec::new();
        std::mem::swap(&mut taken, &mut self.queue);
        let mut queue = reversed(taken);
        let mut unrouted: Vec<TaskDefinition> = Vec::new();
        let mut routed: Vec<TaskDefinition> = Vec::new();
        let ghost mut done: int = 0;
        proof {
            reveal(Seq::filter);
            assert(all.skip(0) =~= all);
            assert(before.take(0).len() == 0);
            assert(task::task_views(unrouted@) =~= before.take(0).filter(free));
            assert(task::task_views(routed@) =~= before.take(0).filter(bound));
        }
        while queue.len() > 0
            invariant
                0 <= done <= all.len(),
                queue@.reverse() == all.skip(done),
                before == task::task_views(all),
                free == (|t: TaskView| t.target_node is None),
                bound == (|t: TaskView| t.target_node is Some),
                task::task_views(unrouted@) == before.take(done).filter(free),
                task::task_views(routed@) == before.take(done).filter(bound),
            decreases queue@.len(),
        {
            let ghost q = queue@;
            if let Some(t) = queue.pop() {
                let ghost (u, r) = (unrouted@, routed@);
                proof {
                    reveal(Seq::filter);
                    common::lemma_next(all, done, q);
                    assert(queue@ =~= q.drop_last());
                    assert(before.take(done + 1).drop_last() =~= before.take(done));
                    assert(before.take(done + 1).last() == t@);
                }
                if t.target_node.is_none() {
                    unrouted.push(t);
                    assert(task::task_views(unrouted@) =~= task::task_views(u).push(t@));
                } else {
                    routed.push(t);
                    assert(task::task_views(routed@) =~= task::task_views(r).push(t@));
                }
                proof {
                    done = done + 1;
                }
            }
        }
        assert(before.take(done) =~= before);
        std::mem::swap(&mut routed, &mut self.queue);
        proof {
            if self.ranked {
                lemma_filter_descending(before, bound);
            }
        }
        unrouted
    }

    fn len(&self) -> (n: usize) {
        self.queue.len()
    }

    fn is_empty(&self) -> (b: bool) {
        self.queue.len() == 0
    }

    fn close(&mut self)
        ensures
            final(self).ranked == old(self).ranked,
    {
        self.closed = true;
    }

    fn is_closed(&self) -> (b: bool) {
        self.closed
    }
}

/// Leaving tasks out keeps the order by priority.
pub proof fn lemma_filter_descending(queue: Seq<TaskView>, keep: spec_fn(TaskView) -> bool)
    requires
        descending(queue),
    ensures
        descending(queue.filter(keep)),
        forall|i: int|
            0 <= i < queue.filter(keep).len() ==> queue.contains(#[trigger] queue.filter(keep)[i]),
    decreases queue.len(),
{
    reveal(Seq::filter);
    if queue.len() > 0 {
        let init = queue.drop_last();
        lemma_filter_descending(init, keep);
        let f = init.filter(keep);
        let g = queue.filter(keep);
        assert forall|i: int| 0 <= i < g.len() implies queue.contains(#[trigger] g[i]) by {
            if i < f.len() {
                assert(init.contains(f[i]));
                let j = init.index_of(f[i]);
                assert(queue[j] == g[i]);
            } else {
                assert(queue[queue.len() - 1] == g[i]);
            }
        }
        assert forall|i: int, j: int| 0 <= i < j < g.len() implies (#[trigger] g[i]).priority >= (
        #[trigger] g[j]).priority by {
            if j < f.len() {
                assert(f[i].priority >= f[j].priority);
            } else {
                assert(init.contains(f[i]));
                let k = init.index_of(f[i]);
                assert(queue[k].priority >= queue[queue.len() - 1].priority);
            }
        }
    }
}

} // verus!
