//! The actor that owns the queue of tasks.
use vstd::prelude::*;

use crate::common::ActantError;
use crate::runtime::workflow::scheduler;
use crate::runtime::workflow::scheduler::{InnerScheduler, Scheduler};
use crate::runtime::workflow::task;
use crate::runtime::workflow::task::{TaskDefinition, TaskView};

verus! {

/// The type name of the actor.
pub const SCHEDULER_ACTOR_TYPE: &'static str = "SchedulerActor";

/// How long the actor waits for a task on behalf of a consumer, in milliseconds.
pub const DEQUEUE_ACTOR_TIMEOUT_MS: u64 = 5000;

/// Something that the actor is asked to do.
#[derive(Debug)]
pub enum SchedulerCommand {
    Enqueue(TaskDefinition),
    EnqueueBatch(Vec<TaskDefinition>),
    DequeueBatch(usize),
    TryDequeue,
    DrainUnrouted,
    Len,
    IsEmpty,
    Close,
    IsClosed,
}

/// What a command is answered with.
#[derive(Debug)]
pub enum SchedulerReply {
    Done,
    Task(Option<TaskDefinition>),
    Tasks(Vec<TaskDefinition>),
    Number(usize),
    Flag(bool),
}

/// The actor that owns the queue of tasks.
#[derive(Debug)]
pub struct SchedulerActor {
    pub inner: InnerScheduler,
}

/// What a command leads to: the queue afterwards, which orders its tasks as before, the
/// answer, and whether whoever waits for tasks is to be woken.
pub open spec fn command_outcome(
    before: InnerScheduler,
    after: InnerScheduler,
    c: SchedulerCommand,
    now: u64,
    r: Result<SchedulerReply, ActantError>,
    wake: bool,
) -> bool {
    &&& after.ranked == before.ranked
    &&& after.closed == (before.closed || c is Close)
    &&& queue_outcome(before, after, c, now, r, wake)
}

/// What a command does to the tasks that wait, what it is answered with, and whether whoever
/// waits for tasks is to be woken.
pub open spec fn queue_outcome(
    before: InnerScheduler,
    after: InnerScheduler,
    c: SchedulerCommand,
    now: u64,
    r: Result<SchedulerReply, ActantError>,
    wake: bool,
) -> bool {
    let q = before.queued();
    match c {
        SchedulerCommand::Enqueue(t) => if before.closed {
            r matches Err(e) && scheduler::closed_error(e) && after.queued() == q && !wake
        } else {
            &&& r matches Ok(SchedulerReply::Done)
            &&& after.queued() == scheduler::joined(
                q,
                before.ranked,
                scheduler::stamped(t@, now),
            )
            &&& wake
        },
        SchedulerCommand::EnqueueBatch(tasks) => if before.closed {
            r matches Err(e) && scheduler::closed_error(e) && after.queued() == q && !wake
        } else {
            &&& r matches Ok(SchedulerReply::Done)
            &&& after.queued() == scheduler::all_joined(
                q,
                before.ranked,
                task::task_views(tasks@),
                now,
            )
            &&& wake
        },
        SchedulerCommand::DequeueBatch(limit) => {
            let n = if limit <= q.len() {
                limit as int
            } else {
                q.len() as int
            };
            &&& r matches Ok(SchedulerReply::Tasks(tasks))
            &&& task::task_views(tasks@) == q.take(n)
            &&& after.queued() == q.skip(n)
            &&& !wake
        },
        SchedulerCommand::TryDequeue => {
            &&& r matches Ok(SchedulerReply::Task(t))
            &&& match t {
                Some(x) => q.len() > 0 && x@ == q[0] && after.queued() == q.skip(1),
                None => q.len() == 0 && after.queued() == q,
            }
            &&& !wake
        },
        SchedulerCommand::DrainUnrouted => {
            &&& r matches Ok(SchedulerReply::Tasks(tasks))
            &&& task::task_views(tasks@) == q.filter(|t: TaskView| t.target_node is None)
            &&& after.queued() == q.filter(|t: TaskView| t.target_node is Some)
            &&& !wake
        },
        SchedulerCommand::Len => {
            &&& r matches Ok(SchedulerReply::Number(n))
            &&& n == q.len()
            &&& after.queued() == q
            &&& !wake
        },
        SchedulerCommand::IsEmpty => {
            &&& r matches Ok(SchedulerReply::Flag(b))
            &&& b == (q.len() == 0)
            &&& after.queued() == q
            &&& !wake
        },
        SchedulerCommand::Close => {
            &&& r matches Ok(SchedulerReply::Done)
            &&& after.queued() == q
            &&& wake
        },
        SchedulerCommand::IsClosed => {
            &&& r matches Ok(SchedulerReply::Flag(b))
            &&& b == before.closed
            &&& after.queued() == q
            &&& !wake
        },
    }
}

impl SchedulerActor {
    /// The actor of a first-in-first-out queue.
    pub fn fifo() -> (a: Self)
        ensures
            a.inner.sound(),
            !a.inner.ranked,
            !a.inner.closed,
            a.inner.queued() == Seq::<TaskView>::empty(),
    {
        SchedulerActor { inner: InnerScheduler::fifo() }
    }

    /// The actor of a queue by priority.
    pub fn priority() -> (a: Self)
        ensures
            a.inner.sound(),
            a.inner.ranked,
            !a.inner.closed,
            a.inner.queued() == Seq::<TaskView>::empty(),
    {
        SchedulerActor { inner: InnerScheduler::priority() }
    }

    /// The actor, with its queue by priority.
    pub fn with_priority(self) -> (a: Self)
        requires
            self.inner.sound(),
        ensures
            a.inner.sound(),
            a.inner.ranked,
            a.inner.closed == self.inner.closed,
            a.inner.queued() == (if self.inner.ranked {
                self.inner.queued()
            } else {
                Seq::empty()
            }),
    {
        let mut a = self;
        a.inner.switch_to_priority();
        a
    }

    /// Does what a command asks at time `now`. Also returns whether whoever waits for tasks
    /// is to be woken.
    pub fn handle_message(&mut self, command: SchedulerCommand, now: u64) -> (r: (
        Result<SchedulerReply, ActantError>,
        bool,
    ))
        requires
            old(self).inner.sound(),
        ensures
            final(self).inner.sound(),
            command_outcome(old(self).inner, final(self).inner, command, now, r.0, r.1),
    {
        match command {
            SchedulerCommand::Enqueue(t) => match self.inner.enqueue_at(t, now) {
                Ok(()) => (Ok(SchedulerReply::Done), true),
                Err(e) => (Err(e), false),
            },
            SchedulerCommand::EnqueueBatch(tasks) => match self.inner.enqueue_batch(tasks, now) {
                Ok(()) => (Ok(SchedulerReply::Done), true),
                Err(e) => (Err(e), false),
            },
            SchedulerCommand::DequeueBatch(limit) => (
                Ok(SchedulerReply::Tasks(self.inner.dequeue_batch(limit))),
                false,
            ),
            SchedulerCommand::TryDequeue => (
                Ok(SchedulerReply::Task(self.inner.try_dequeue())),
                false,
            ),
            SchedulerCommand::DrainUnrouted => (
                Ok(SchedulerReply::Tasks(self.inner.drain_unrouted())),
                false,
            ),
            SchedulerCommand::Len => (Ok(SchedulerReply::Number(self.inner.len())), false),
            SchedulerCommand::IsEmpty => (Ok(SchedulerReply::Flag(self.inner.is_empty())), false),
            SchedulerCommand::Close => {
                self.inner.close();
                (Ok(SchedulerReply::Done), true)
            },
            SchedulerCommand::IsClosed => (
                Ok(SchedulerReply::Flag(self.inner.is_closed())),
                false,
            ),
        }
    }
}

/// The actor of a first-in-first-out queue.
pub fn fifo_scheduler_actor() -> (a: SchedulerActor)
    ensures
        a.inner.sound(),
        !a.inner.ranked,
        !a.inner.closed,
        a.inner.queued() == Seq::<TaskView>::empty(),
{
    SchedulerActor::fifo()
}

/// The actor of a queue by priority.
pub fn priority_scheduler_actor() -> (a: SchedulerActor)
    ensures
        a.inner.sound(),
        a.inner.ranked,
        !a.inner.closed,
        a.inner.queued() == Seq::<TaskView>::empty(),
{
    SchedulerActor::priority()
}

/// `states` is what the queue goes through when `commands` are given one after another, each
/// at its time, and answered with `replies`.
pub open spec fn is_run(
    states: Seq<InnerScheduler>,
    commands: Seq<(SchedulerCommand, u64)>,
    replies: Seq<(Result<SchedulerReply, ActantError>, bool)>,
) -> bool {
    &&& states.len() == commands.len() + 1
    &&& replies.len() == commands.len()
    &&& forall|i: int|
        0 <= i < commands.len() ==> command_outcome(
            #[trigger] states[i],
            states[i + 1],
            commands[i].0,
            commands[i].1,
            replies[i].0,
            replies[i].1,
        )
}

/// A command leaves a queue by priority in order.
proof fn lemma_stays_descending(
    before: InnerScheduler,
    after: InnerScheduler,
    c: SchedulerCommand,
    now: u64,
    r: Result<SchedulerReply, ActantError>,
    wake: bool,
)
    requires
        before.ranked,
        scheduler::descending(before.queued()),
        command_outcome(before, after, c, now, r, wake),
    ensures
        scheduler::descending(after.queued()),
{
    let q = before.queued();
    match c {
        SchedulerCommand::Enqueue(t) => {
            scheduler::law_priority_order(q, scheduler::stamped(t@, now));
        },
        SchedulerCommand::EnqueueBatch(tasks) => {
            scheduler::lemma_all_joined_descending(q, task::task_views(tasks@), now);
        },
        SchedulerCommand::DrainUnrouted => {
            scheduler::lemma_filter_descending(q, |t: TaskView| t.target_node is Some);
        },
        _ => {},
    }
}

/// Whatever a queue by priority is told, it stays one: at every point of a run its tasks wait
/// in descending priority, and the task that is handed out has the highest priority of all
/// that wait. A batch that is handed out leaves nothing behind that comes before it.
pub proof fn law_priority_is_kept(
    states: Seq<InnerScheduler>,
    commands: Seq<(SchedulerCommand, u64)>,
    replies: Seq<(Result<SchedulerReply, ActantError>, bool)>,
    i: int,
)
    requires
        is_run(states, commands, replies),
        states[0].ranked,
        scheduler::descending(states[0].queued()),
        0 <= i < states.len(),
    ensures
        states[i].ranked,
        scheduler::descending(states[i].queued()),
        i < commands.len() ==> {
            &&& replies[i].0 matches Ok(SchedulerReply::Task(Some(t))) ==> forall|k: int|
                0 <= k < states[i].queued().len() ==> t@.priority >= (
                #[trigger] states[i].queued()[k]).priority
            &&& commands[i].0 is DequeueBatch ==> (replies[i].0 matches Ok(
                SchedulerReply::Tasks(tasks),
            ) ==> forall|j: int, k: int|
                0 <= j < tasks@.len() && 0 <= k < states[i + 1].queued().len()
                    ==> (#[trigger] tasks@[j])@.priority >= (
                #[trigger] states[i + 1].queued()[k]).priority)
        },
    decreases i,
{
    if i > 0 {
        law_priority_is_kept(states, commands, replies, i - 1);
        let s = states[i - 1];
        lemma_stays_descending(
            s,
            states[i - 1 + 1],
            commands[i - 1].0,
            commands[i - 1].1,
            replies[i - 1].0,
            replies[i - 1].1,
        );
    }
    if i < commands.len() {
        let s = states[i];
        assert(command_outcome(
            s,
            states[i + 1],
            commands[i].0,
            commands[i].1,
            replies[i].0,
            replies[i].1,
        ));
        if commands[i].0 is DequeueBatch {
            if let Ok(SchedulerReply::Tasks(tasks)) = replies[i].0 {
                let q = s.queued();
                let n = tasks@.len() as int;
                assert(task::task_views(tasks@).len() == n);
                assert forall|j: int, k: int|
                    0 <= j < n && 0 <= k < states[i + 1].queued().len() implies (
                #[trigger] tasks@[j])@.priority >= (
                #[trigger] states[i + 1].queued()[k]).priority by {
                    assert(task::task_views(tasks@)[j] == tasks@[j]@);
                    assert(task::task_views(tasks@)[j] == q[j]);
                    assert(states[i + 1].queued()[k] == q[n + k]);
                }
            }
        }
    }
}

/// A queue that is first in first out stays one, whatever it is told: at every point of a run
/// a task that is queued comes last.
pub proof fn law_arrival_order_is_kept(
    states: Seq<InnerScheduler>,
    commands: Seq<(SchedulerCommand, u64)>,
    replies: Seq<(Result<SchedulerReply, ActantError>, bool)>,
    i: int,
)
    requires
        is_run(states, commands, replies),
        !states[0].ranked,
        0 <= i < commands.len(),
    ensures
        !states[i].ranked,
        commands[i].0 matches SchedulerCommand::Enqueue(t) ==> !states[i].closed ==> states[i
            + 1].queued() == states[i].queued().push(scheduler::stamped(t@, commands[i].1)),
    decreases i,
{
    if i > 0 {
        law_arrival_order_is_kept(states, commands, replies, i - 1);
        assert(states[i - 1 + 1].ranked == states[i - 1].ranked);
    }
    let s = states[i];
    if let SchedulerCommand::Enqueue(t) = commands[i].0 {
        scheduler::law_fifo_order(s.queued(), scheduler::stamped(t@, commands[i].1));
    }
}

/// A queue that was closed stays closed, and takes nothing more.
pub proof fn law_closed_stays_closed(
    states: Seq<InnerScheduler>,
    commands: Seq<(SchedulerCommand, u64)>,
    replies: Seq<(Result<SchedulerReply, ActantError>, bool)>,
    i: int,
)
    requires
        is_run(states, commands, replies),
        states[0].closed,
        0 <= i < commands.len(),
    ensures
        states[i].closed,
        commands[i].0 is Enqueue || commands[i].0 is EnqueueBatch ==> replies[i].0 is Err
            && states[i + 1].queued() == states[i].queued(),
    decreases i,
{
    if i > 0 {
        law_closed_stays_closed(states, commands, replies, i - 1);
        assert(states[i - 1 + 1].closed);
    }
    let s = states[i];
}

} // verus!
