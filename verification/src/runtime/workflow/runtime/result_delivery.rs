//! Bringing results back to the node that sent the task.
use vstd::prelude::*;
use vstd::string::*;

use crate::common::{NodeId, TaskId, WorkflowId};
use crate::runtime::workflow::runtime::DirectReply;
use crate::runtime::workflow::task::TaskDefinition;
use crate::runtime::workflow::wire::{
    OutcomeView, TaskCompletion, TaskRef, TaskRefView, WireTaskOutcome,
};
use crate::text;
use crate::text::push_decimal;

verus! {

/// How many results are brought back at the same time.
pub const MAX_CONCURRENT_RETRIES: usize = 16;

/// What one node asks of another.
#[allow(inconsistent_fields)]
#[derive(Debug)]
pub enum DirectRequest {
    /// To run a task.
    DispatchTask { task: TaskDefinition },
    /// To take the result of a task.
    TaskResult { task: TaskRef, outcome: WireTaskOutcome, worker_node: NodeId },
    /// Something that is not about running tasks, as it is shown.
    Other(String),
}

/// A result that could not be brought back yet.
#[derive(Debug)]
pub struct PendingResult {
    pub target: String,
    pub request: DirectRequest,
    pub attempts: usize,
}

/// The task, its name and how it ended, where the request brings a result.
pub fn extract_task_result(request: &DirectRequest) -> (r: Option<
    (WorkflowId, TaskId, String, WireTaskOutcome),
>)
    ensures
        match *request {
            DirectRequest::TaskResult { task, outcome, .. } => {
                &&& r matches Some(x)
                &&& x.0@ == task.workflow_id@
                &&& x.1@ == task.task_id@
                &&& x.2@ == task.task_name@
                &&& x.3@ == outcome@
            },
            _ => r is None,
        },
{
    match request {
        DirectRequest::TaskResult { task, outcome, .. } => Some(
            (
                task.workflow_id.clone(),
                task.task_id.clone(),
                task.task_name.clone(),
                outcome.clone(),
            ),
        ),
        _ => None,
    }
}

/// Why a result that was given up is told to be a failure.
pub open spec fn undelivered(target: Seq<char>, attempts: nat) -> Seq<char> {
    "network: task result could not be delivered to orchestrator "@ + target + " after "@
        + text::decimal(attempts) + " retry attempts"@
}

/// The failure that stands for a result that was given up: whoever waits for the result is
/// told an end instead of waiting for ever, even where the task itself succeeded.
pub fn publish_delivery_failure_compensation(
    request: &DirectRequest,
    target: &String,
    max_attempts: usize,
) -> (r: Option<TaskCompletion>)
    ensures
        match *request {
            DirectRequest::TaskResult { task, .. } => {
                &&& r matches Some(c)
                &&& c@.task == (TaskRefView { target_node: None, ..task@ })
                &&& c@.outcome == OutcomeView::Failed(undelivered(target@, max_attempts as nat))
            },
            _ => r is None,
        },
{
    let (workflow_id, task_id, task_name) = match extract_task_result(request) {
        Some((workflow_id, task_id, task_name, _outcome)) => (workflow_id, task_id, task_name),
        None => {
            return None;
        },
    };
    let mut error = "network: task result could not be delivered to orchestrator ".to_owned();
    error.append(target.as_str());
    error.append(" after ");
    push_decimal(&mut error, max_attempts as u64);
    error.append(" retry attempts");
    Some(
        TaskCompletion {
            task: TaskRef { workflow_id, task_id, task_name, target_node: None },
            outcome: WireTaskOutcome::Failed(error),
        },
    )
}

/// How long to wait before the attempt after `attempts` failures: twice as long each time,
/// at most `cap_ms`.
pub open spec fn backoff(base_ms: int, attempts: nat, cap_ms: int) -> int
    decreases attempts,
{
    if attempts == 0 {
        if base_ms <= cap_ms {
            base_ms
        } else {
            cap_ms
        }
    } else {
        let twice = 2 * backoff(base_ms, (attempts - 1) as nat, cap_ms);
        if twice <= cap_ms {
            twice
        } else {
            cap_ms
        }
    }
}

/// How long to wait before the attempt after `attempts` failures.
pub fn backoff_ms(base_ms: u64, attempts: usize, cap_ms: u64) -> (ms: u64)
    ensures
        ms == backoff(base_ms as int, attempts as nat, cap_ms as int),
        ms <= cap_ms,
{
    let mut ms: u64 = if base_ms <= cap_ms {
        base_ms
    } else {
        cap_ms
    };
    let mut i: usize = 0;
    while i < attempts
        invariant
            i <= attempts,
            ms == backoff(base_ms as int, i as nat, cap_ms as int),
            ms <= cap_ms,
        decreases attempts - i,
    {
        ms = if ms <= cap_ms - ms {
            ms + ms
        } else {
            cap_ms
        };
        i += 1;
    }
    ms
}

/// What to do with a pending result.
#[derive(Debug)]
pub enum PendingStep {
    /// Give it up, and tell the failure that stands for it, where it is a result.
    GiveUp(Option<TaskCompletion>),
    /// Wait for so many milliseconds, then try again.
    RetryAfter(u64),
}

/// The failure stands for the request that is given up after `attempts`.
pub open spec fn compensates(
    c: Option<TaskCompletion>,
    request: DirectRequest,
    target: Seq<char>,
    attempts: nat,
) -> bool {
    match request {
        DirectRequest::TaskResult { task, .. } => {
            &&& c matches Some(x)
            &&& x@.task == (TaskRefView { target_node: None, ..task@ })
            &&& x@.outcome == OutcomeView::Failed(undelivered(target, attempts))
        },
        _ => c is None,
    }
}

/// `s` is what to do with a result when its turn comes: to try again while there are attempts
/// left, to give it up after that.
pub open spec fn step_due(
    p: PendingResult,
    max_attempts: usize,
    base_ms: u64,
    cap_ms: u64,
    s: PendingStep,
) -> bool {
    match s {
        PendingStep::GiveUp(c) => p.attempts >= max_attempts && compensates(
            c,
            p.request,
            p.target@,
            max_attempts as nat,
        ),
        PendingStep::RetryAfter(ms) => p.attempts < max_attempts && ms == backoff(
            base_ms as int,
            p.attempts as nat,
            cap_ms as int,
        ),
    }
}

impl PendingResult {
    /// What to do with the result when its turn comes.
    pub fn next_step(&self, max_attempts: usize, base_ms: u64, cap_ms: u64) -> (s: PendingStep)
        ensures
            step_due(*self, max_attempts, base_ms, cap_ms, s),
    {
        if self.attempts >= max_attempts {
            PendingStep::GiveUp(
                publish_delivery_failure_compensation(&self.request, &self.target, max_attempts),
            )
        } else {
            PendingStep::RetryAfter(backoff_ms(base_ms, self.attempts, cap_ms))
        }
    }

    /// The result after an attempt that failed.
    pub fn failed_again(self) -> (p: PendingResult)
        requires
            self.attempts < usize::MAX,
        ensures
            p.target == self.target,
            p.request == self.request,
            p.attempts == self.attempts + 1,
    {
        PendingResult { target: self.target, request: self.request, attempts: self.attempts + 1 }
    }

    /// The failure to tell where there is no room to keep the result for another attempt.
    pub fn no_room(&self) -> (c: Option<TaskCompletion>)
        ensures
            compensates(c, self.request, self.target@, self.attempts as nat),
    {
        publish_delivery_failure_compensation(&self.request, &self.target, self.attempts)
    }
}

/// What is done with the answer to another attempt at a result.
pub open spec fn retry_settled(
    before: Seq<PendingResult>,
    after: Seq<PendingResult>,
    capacity: usize,
    pending: PendingResult,
    reply: DirectReply,
    failed: Option<TaskCompletion>,
) -> bool {
    let next = PendingResult { attempts: (pending.attempts + 1) as usize, ..pending };
    if reply == (DirectReply::TaskResultAck { accepted: true }) {
        after == before && failed is None
    } else if before.len() < capacity {
        after == before.push(next) && failed is None
    } else {
        after == before && compensates(
            failed,
            pending.request,
            pending.target@,
            next.attempts as nat,
        )
    }
}

/// Room for a limited number of results.
#[derive(Debug)]
pub struct PendingQueue {
    pub entries: Vec<PendingResult>,
    pub capacity: usize,
}

impl PendingQueue {
    /// No results, with room for `capacity`.
    pub fn new(capacity: usize) -> (q: Self)
        ensures
            q.entries@.len() == 0,
            q.capacity == capacity,
    {
        PendingQueue { entries: Vec::new(), capacity }
    }

    /// Keeps a result where there is room. Returns it where there is none.
    pub fn try_enqueue_pending_result(&mut self, pending: PendingResult) -> (r: Result<
        (),
        PendingResult,
    >)
        ensures
            final(self).capacity == old(self).capacity,
            match r {
                Ok(()) => old(self).entries@.len() < old(self).capacity && final(self).entries@
                    == old(self).entries@.push(pending),
                Err(p) => old(self).entries@.len() >= old(self).capacity && p == pending
                    && final(self).entries@ == old(self).entries@,
            },
    {
        if self.entries.len() >= self.capacity {
            Err(pending)
        } else {
            self.entries.push(pending);
            Ok(())
        }
    }

    /// Takes in the answer to another attempt at a result. One that was not taken is kept for
    /// the next attempt; where there is no room, the failure that stands for it is returned.
    pub fn settle_retry(&mut self, pending: PendingResult, reply: &DirectReply) -> (failed: Option<
        TaskCompletion,
    >)
        requires
            pending.attempts < usize::MAX,
        ensures
            final(self).capacity == old(self).capacity,
            retry_settled(
                old(self).entries@,
                final(self).entries@,
                old(self).capacity,
                pending,
                *reply,
                failed,
            ),
    {
        if let DirectReply::TaskResultAck { accepted: true } = reply {
            return None;
        }
        match self.try_enqueue_pending_result(pending.failed_again()) {
            Ok(()) => None,
            Err(p) => p.no_room(),
        }
    }

    /// Takes the result out that has waited longest.
    pub fn take(&mut self) -> (p: Option<PendingResult>)
        ensures
            final(self).capacity == old(self).capacity,
            match p {
                Some(x) => old(self).entries@.len() > 0 && x == old(self).entries@[0]
                    && final(self).entries@ == old(self).entries@.skip(1),
                None => old(self).entries@.len() == 0 && final(self).entries@ == old(self).entries@,
            },
    {
        if self.entries.len() == 0 {
            None
        } else {
            let ghost before = self.entries@;
            let x = self.entries.remove(0);
            assert(self.entries@ =~= before.skip(1));
            Some(x)
        }
    }
}

/// No result is lost in silence: after every attempt it was taken, is kept for another
/// attempt, or the failure that stands for it is told.
pub proof fn law_no_result_is_lost(
    before: Seq<PendingResult>,
    after: Seq<PendingResult>,
    capacity: usize,
    pending: PendingResult,
    reply: DirectReply,
    failed: Option<TaskCompletion>,
)
    requires
        retry_settled(before, after, capacity, pending, reply, failed),
        pending.request is TaskResult,
        pending.attempts < usize::MAX,
    ensures
        ({
            ||| reply == (DirectReply::TaskResultAck { accepted: true })
            ||| {
                &&& after.len() == before.len() + 1
                &&& after.last().target == pending.target
                &&& after.last().request == pending.request
                &&& after.last().attempts == pending.attempts + 1
            }
            ||| failed is Some
        }),
        forall|i: int| 0 <= i < before.len() ==> after[i] == before[i],
{
}

/// The wait never exceeds the cap and never shrinks from one attempt to the next.
pub proof fn law_backoff_grows(base_ms: int, attempts: nat, cap_ms: int)
    requires
        0 <= base_ms,
        0 <= cap_ms,
    ensures
        0 <= backoff(base_ms, attempts, cap_ms) <= cap_ms,
        backoff(base_ms, attempts, cap_ms) <= backoff(base_ms, attempts + 1, cap_ms),
    decreases attempts,
{
    if attempts > 0 {
        law_backoff_grows(base_ms, (attempts - 1) as nat, cap_ms);
    }
}

} // verus!
