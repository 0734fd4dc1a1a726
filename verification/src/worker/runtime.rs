//! A worker that runs the tasks of workflows only: it neither takes cancellations from other
//! nodes nor chooses nodes by itself.
use vstd::prelude::*;

use crate::common::NodeId;
use crate::runtime::workflow::runtime;
use crate::runtime::workflow::runtime::result_delivery::{
    DirectRequest, PendingQueue, PendingResult,
};
use crate::runtime::workflow::runtime::{
    close_and_empty, forward_remote_task, place_task, publish_task_completion, unbound, Delivery,
    DirectReply, LoopAction, LoopEvent, TaskStep,
};
use crate::runtime::workflow::scheduler::{InnerScheduler, Scheduler};
use crate::runtime::workflow::task::TaskDefinition;
use crate::runtime::workflow::wire::TaskCompletion;

pub use crate::runtime::workflow::runtime::WorkerState;

verus! {

/// Two to the power of `n`, at most the greatest number of 32 bits.
pub open spec fn doubled(n: nat) -> int
    decreases n,
{
    if n == 0 {
        1
    } else if 2 * doubled((n - 1) as nat) <= u32::MAX {
        2 * doubled((n - 1) as nat)
    } else {
        u32::MAX as int
    }
}

proof fn lemma_doubled(n: nat)
    ensures
        1 <= doubled(n) <= u32::MAX,
    decreases n,
{
    if n > 0 {
        lemma_doubled((n - 1) as nat);
    }
}

/// How long to wait before the attempt after `attempts` failures: twice as long each time.
pub fn retry_delay_ms(base_ms: u64, attempts: u32) -> (ms: u128)
    ensures
        ms == base_ms * doubled(attempts as nat),
{
    let mut factor: u32 = 1;
    let mut i: u32 = 0;
    while i < attempts
        invariant
            i <= attempts,
            factor == doubled(i as nat),
        decreases attempts - i,
    {
        proof {
            lemma_doubled(i as nat);
        }
        factor = factor.saturating_add(factor);
        i += 1;
    }
    assert(base_ms * factor <= u64::MAX * u32::MAX) by (nonlinear_arith)
        requires
            0 <= base_ms <= u64::MAX,
            0 <= factor <= u32::MAX,
    ;
    base_ms as u128 * factor as u128
}

/// Keeps a result for another attempt where there is room; it is dropped otherwise. Returns
/// whether it was kept.
pub fn enqueue_pending_result(queue: &mut PendingQueue, pending: PendingResult) -> (kept: bool)
    ensures
        kept == (old(queue).entries@.len() < old(queue).capacity),
        final(queue).capacity == old(queue).capacity,
        final(queue).entries@ == (if kept {
            old(queue).entries@.push(pending)
        } else {
            old(queue).entries@
        }),
{
    queue.try_enqueue_pending_result(pending).is_ok()
}

/// What is done with the answer to a result that was tried `attempts` times before: where it was
/// not taken it is kept for another attempt, and dropped where there is no room.
pub open spec fn answer_settled(
    before: Seq<PendingResult>,
    after: Seq<PendingResult>,
    capacity: usize,
    reply: DirectReply,
    next: PendingResult,
) -> bool {
    if reply != (DirectReply::TaskResultAck { accepted: true }) && before.len() < capacity {
        after == before.push(next)
    } else {
        after == before
    }
}

/// Takes in the answer to a result that was sent back for the first time.
pub fn settle_delivery(
    queue: &mut PendingQueue,
    reply: &DirectReply,
    address: String,
    request: DirectRequest,
)
    ensures
        final(queue).capacity == old(queue).capacity,
        answer_settled(
            old(queue).entries@,
            final(queue).entries@,
            old(queue).capacity,
            *reply,
            PendingResult { target: address, request, attempts: 0 },
        ),
{
    if let DirectReply::TaskResultAck { accepted: true } = reply {
        return ;
    }
    enqueue_pending_result(queue, PendingResult { target: address, request, attempts: 0 });
}

/// Takes in the answer to another attempt at a result.
pub fn settle_retry(queue: &mut PendingQueue, pending: PendingResult, reply: &DirectReply)
    requires
        pending.attempts < usize::MAX,
    ensures
        final(queue).capacity == old(queue).capacity,
        answer_settled(
            old(queue).entries@,
            final(queue).entries@,
            old(queue).capacity,
            *reply,
            PendingResult { attempts: (pending.attempts + 1) as usize, ..pending },
        ),
{
    if let DirectReply::TaskResultAck { accepted: true } = reply {
        return ;
    }
    enqueue_pending_result(queue, pending.failed_again());
}

/// What to do with a pending result.
#[derive(Debug, Clone, Copy, PartialEq, Eq, Structural)]
pub enum RetryStep {
    /// Give it up.
    GiveUp,
    /// Wait for so many milliseconds, then try again.
    RetryAfter(u128),
}

/// What to do with a pending result when its turn comes. The number of attempts counts in 32
/// bits.
pub fn retry_step(pending: &PendingResult, max_attempts: usize, base_ms: u64) -> (s: RetryStep)
    ensures
        s == (if pending.attempts >= max_attempts {
            RetryStep::GiveUp
        } else {
            RetryStep::RetryAfter((base_ms * doubled(pending.attempts as u32 as nat)) as u128)
        }),
{
    if pending.attempts >= max_attempts {
        RetryStep::GiveUp
    } else {
        RetryStep::RetryAfter(
            retry_delay_ms(
                base_ms,
                #[verifier::truncate]
                (pending.attempts as u32),
            ),
        )
    }
}

/// What the loop that runs tasks does upon an event, on `node` with so many slots. No node is
/// chosen for a task that is bound to none.
pub open spec fn run_stepped(node: Seq<char>, slots: nat, event: LoopEvent, a: LoopAction) -> bool {
    match event {
        LoopEvent::Taken { task: Some(t), .. } => a matches LoopAction::Place(s) && runtime::placed(
            node,
            slots,
            Map::empty(),
            t@,
            s,
        ),
        _ => runtime::loop_stepped(node, slots, Map::empty(), event, a),
    }
}

/// What to do with the end of a task on `node_id`. Of a task without a workflow nothing is
/// told.
pub fn deliver(completion: TaskCompletion, task: &TaskDefinition, node_id: &NodeId) -> (d: Option<
    Delivery,
>)
    ensures
        match d {
            Some(x) => task@.workflow_id is Some && runtime::delivered(
                task@,
                *node_id,
                completion,
                x,
            ),
            None => task@.workflow_id is None,
        },
{
    if task.workflow_id.is_none() {
        None
    } else {
        Some(publish_task_completion(completion, task, node_id))
    }
}

/// A node's worker.
#[derive(Debug)]
pub struct WorkerRuntime {
    pub node_id: NodeId,
    pub max_concurrent_tasks: usize,
    /// The slots that no task occupies.
    pub available_permits: usize,
    pub task_timeout_ms: u64,
    pub state: WorkerState,
}

impl WorkerRuntime {
    /// A worker that runs nothing yet.
    pub fn new(node_id: NodeId, max_concurrent_tasks: usize, task_timeout_ms: u64) -> (w: Self)
        ensures
            w.node_id == node_id,
            w.max_concurrent_tasks == max_concurrent_tasks,
            w.available_permits == max_concurrent_tasks,
            w.task_timeout_ms == task_timeout_ms,
            w.state == WorkerState::Running,
    {
        WorkerRuntime {
            node_id,
            max_concurrent_tasks,
            available_permits: max_concurrent_tasks,
            task_timeout_ms,
            state: WorkerState::Running,
        }
    }

    /// The worker with so many slots, all free.
    pub fn with_max_concurrent_tasks(self, max: usize) -> (w: Self)
        ensures
            w == (WorkerRuntime { max_concurrent_tasks: max, available_permits: max, ..self }),
    {
        let mut w = self;
        w.max_concurrent_tasks = max;
        w.available_permits = max;
        w
    }

    /// The number of tasks that run.
    pub fn running_task_count(&self) -> (n: usize)
        ensures
            n == if self.available_permits <= self.max_concurrent_tasks {
                self.max_concurrent_tasks - self.available_permits
            } else {
                0
            },
    {
        self.max_concurrent_tasks.saturating_sub(self.available_permits)
    }

    /// The number of slots.
    pub fn max_concurrent_tasks(&self) -> (n: usize)
        ensures
            n == self.max_concurrent_tasks,
    {
        self.max_concurrent_tasks
    }

    /// Gives a task a slot.
    pub fn begin_task(&mut self)
        requires
            old(self).available_permits > 0,
        ensures
            *final(self) == (WorkerRuntime {
                available_permits: (old(self).available_permits - 1) as usize,
                ..*old(self)
            }),
    {
        self.available_permits = self.available_permits - 1;
    }

    /// Frees the slot of a task that has ended.
    pub fn finish_task(&mut self)
        requires
            old(self).available_permits < old(self).max_concurrent_tasks,
        ensures
            *final(self) == (WorkerRuntime {
                available_permits: (old(self).available_permits + 1) as usize,
                ..*old(self)
            }),
    {
        self.available_permits = self.available_permits + 1;
    }

    /// How long a task may take: what it asks for, or else what the worker allows.
    pub fn effective_timeout_ms(&self, task: &TaskDefinition) -> (ms: u64)
        ensures
            ms == match task@.timeout_ms {
                Some(t) => t,
                None => self.task_timeout_ms,
            },
    {
        match task.timeout_ms {
            Some(t) => t,
            None => self.task_timeout_ms,
        }
    }

    /// The worker with another limit on how long a task may take.
    pub fn with_task_timeout(self, timeout_ms: u64) -> (w: Self)
        ensures
            w == (WorkerRuntime { task_timeout_ms: timeout_ms, ..self }),
    {
        let mut w = self;
        w.task_timeout_ms = timeout_ms;
        w
    }

    /// The node.
    pub fn node_id(&self) -> (n: &NodeId)
        ensures
            *n == self.node_id,
    {
        &self.node_id
    }

    /// How the worker stands.
    pub fn state(&self) -> (s: WorkerState)
        ensures
            s == self.state,
    {
        self.state
    }

    /// What to do with a task that was taken from the queue: forward it to the node that it is
    /// bound to, queue it again where this node has no slots, or run it.
    pub fn place(&self, task: TaskDefinition) -> (s: TaskStep)
        ensures
            runtime::placed(
                self.node_id@,
                self.max_concurrent_tasks as nat,
                Map::empty(),
                task@,
                s,
            ),
    {
        place_task(task, &self.node_id, self.max_concurrent_tasks)
    }

    /// Takes the next step of the loop that runs tasks.
    pub fn run(&mut self, event: LoopEvent) -> (a: LoopAction)
        ensures
            run_stepped(
                old(self).node_id@,
                old(self).max_concurrent_tasks as nat,
                event,
                a,
            ),
            *final(self) == (WorkerRuntime {
                state: runtime::state_after(old(self).state, event),
                ..*old(self)
            }),
    {
        match event {
            LoopEvent::Cancelled => {
                self.state = WorkerState::Draining;
                LoopAction::Await
            },
            LoopEvent::Waited => {
                self.state = WorkerState::Stopped;
                LoopAction::End
            },
            LoopEvent::Taken { task, .. } => match task {
                Some(t) => LoopAction::Place(self.place(t)),
                None => LoopAction::Next,
            },
            LoopEvent::Answered { task, address, reply } => match forward_remote_task(
                &reply,
                address.as_str(),
            ) {
                Ok(()) => LoopAction::Next,
                Err(_) => LoopAction::Place(TaskStep::Requeue(unbound(task))),
            },
        }
    }

    /// Begins a turn of the loop that runs tasks: a worker that drains drops what is queued and
    /// stops. Returns whether it has.
    pub fn begin_turn(&mut self, queue: &mut InnerScheduler) -> (stopped: bool)
        requires
            old(queue).sound(),
        ensures
            stopped == (old(self).state == WorkerState::Draining),
            final(queue).sound(),
            if stopped {
                &&& *final(self) == (WorkerRuntime { state: WorkerState::Stopped, ..*old(self) })
                &&& final(queue).closed
                &&& final(queue).ranked == old(queue).ranked
                &&& final(queue).queued().len() == 0
            } else {
                *final(self) == *old(self) && *final(queue) == *old(queue)
            },
    {
        if self.state != WorkerState::Draining {
            return false;
        }
        close_and_empty(queue);
        self.state = WorkerState::Stopped;
        true
    }

    /// Stops taking tasks: nothing more is queued, and what runs is left to end.
    pub fn drain(&mut self, queue: &mut InnerScheduler)
        requires
            old(queue).sound(),
        ensures
            *final(self) == (WorkerRuntime { state: WorkerState::Draining, ..*old(self) }),
            final(queue).sound(),
            final(queue).closed,
            final(queue).ranked == old(queue).ranked,
            final(queue).queued() == old(queue).queued(),
    {
        self.state = WorkerState::Draining;
        queue.close();
    }
}

} // verus!
