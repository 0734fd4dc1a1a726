//! Starting, failing, retrying, cancelling and resetting within one workflow.
use vstd::prelude::*;
use vstd::string::*;

use crate::common;
use crate::common::{ActantError, NodeId, TaskId, WorkflowId};
use crate::runtime::workflow::dag;
use crate::runtime::workflow::execution;
use crate::runtime::workflow::execution::{ExecutionView, TaskState, WorkflowExecution};
use crate::runtime::workflow::execution_laws;
use crate::runtime::workflow::graph;
use crate::runtime::workflow::orchestrator::slot;
use crate::runtime::workflow::orchestrator::slot::{SlotState, SlotView, WorkflowSlot};
use crate::runtime::workflow::orchestrator::submit;
use crate::runtime::workflow::orchestrator::submit::workflow_message;
use crate::runtime::workflow::phase::{FailureScope, Phase, Terminal};
use crate::runtime::workflow::task;
use crate::runtime::workflow::task::TaskDefinition;

verus! {

/// What a reported failure leads to.
#[derive(Debug, Clone, Copy, PartialEq, Eq, Structural)]
pub enum FailureVerdict {
    /// The report is late, repeated or premature.
    Ignore,
    /// The task is tried again after `delay_ms`.
    Retry { delay_ms: u64 },
    /// The task has failed for good.
    Fail,
}

/// What the failure of `id` leads to: nothing where the task cannot move on, where a
/// retry is already under way, or where the task was never dispatched and tasks are still
/// coming; a retry while the policy has any left; and failure otherwise.
pub open spec fn verdict(v: SlotView, id: Seq<char>) -> FailureVerdict {
    let t = v.execution.tasks[id];
    let policy = dag::policy_of(v.dag, id);
    if !execution::transition_allowed(v.execution, id) {
        FailureVerdict::Ignore
    } else if t.state == Phase::Pending && (t.retry_count > 0 || !v.execution.sealed) {
        FailureVerdict::Ignore
    } else if policy is Some && t.retry_count < policy->0.max_retries {
        FailureVerdict::Retry { delay_ms: policy->0.delay_ms }
    } else {
        FailureVerdict::Fail
    }
}

/// `v` with `id` back to pending for a retry.
pub open spec fn retried(v: SlotView, id: Seq<char>) -> SlotView {
    SlotView {
        execution: execution::retry_begun(v.execution, id),
        pending: v.pending.insert(id, graph::sources(slot::pairs(v.dag), id).len() as usize),
        ..v
    }
}

/// The tasks that wait for nothing.
pub open spec fn root_ids(v: SlotView) -> Seq<Seq<char>> {
    v.dag.order.filter(|k: Seq<char>| graph::sources(slot::pairs(v.dag), k).len() == 0)
}

/// The running tasks, in the order in which the tasks were added.
pub open spec fn running_ids(v: ExecutionView) -> Seq<Seq<char>> {
    v.order.filter(|k: Seq<char>| v.tasks[k].state == Phase::Running)
}

/// Every task in `ids` is running.
pub open spec fn all_running(v: ExecutionView, ids: Seq<Seq<char>>) -> bool {
    forall|i: int|
        0 <= i < ids.len() ==> v.tasks.contains_key(#[trigger] ids[i]) ==> v.tasks[ids[i]].state
            == Phase::Running
}

/// The running tasks are running.
pub proof fn lemma_running_ids(v: ExecutionView)
    ensures
        all_running(v, running_ids(v)),
{
    let f = |k: Seq<char>| v.tasks[k].state == Phase::Running;
    broadcast use vstd::seq_lib::group_filter_ensures;

    assert forall|i: int|
        0 <= i < running_ids(v).len() && v.tasks.contains_key(
            #[trigger] running_ids(v)[i],
        ) implies v.tasks[running_ids(v)[i]].state == Phase::Running by {
        assert(f(v.order.filter(f)[i]));
    }
}

/// `v` with every task in `ids` dispatched anew, where that applies.
pub open spec fn redispatched(v: ExecutionView, ids: Seq<Seq<char>>) -> ExecutionView
    decreases ids.len(),
{
    if ids.len() == 0 {
        v
    } else {
        execution::task_reset(redispatched(v, ids.drop_last()), ids.last(), false, true)
    }
}

/// `v` with every running task pending again, to be dispatched under a new generation. Every
/// other task stays as it is.
pub open spec fn running_redispatched(v: ExecutionView) -> ExecutionView {
    ExecutionView {
        tasks: v.tasks.map_values(
            |t: TaskState|
                if t.state == Phase::Running {
                    execution::reset_state(t, false, true)
                } else {
                    t
                },
        ),
        ..v
    }
}

/// Every dispatch generation of a running task can still grow.
pub open spec fn running_attempts_left(v: ExecutionView) -> bool {
    forall|k: Seq<char>| #[trigger]
        v.tasks.contains_key(k) && v.tasks[k].state == Phase::Running ==> v.tasks[k].attempt
            < u32::MAX
}

/// Dispatching the running tasks anew keeps the counters.
pub proof fn lemma_running_redispatched(v: ExecutionView)
    requires
        execution_laws::counted(v),
    ensures
        execution_laws::counted(running_redispatched(v)),
{
    let after = running_redispatched(v).tasks;
    assert(after.dom() =~= v.tasks.dom());
    assert(execution_laws::in_phase(after, Phase::Completed) =~= execution_laws::in_phase(
        v.tasks,
        Phase::Completed,
    ));
    assert(execution_laws::in_phase(after, Phase::Skipped) =~= execution_laws::in_phase(
        v.tasks,
        Phase::Skipped,
    ));
}

/// The dispatch generation of `id` can still grow.
pub open spec fn attempt_left(v: ExecutionView, id: Seq<char>) -> bool {
    v.tasks.contains_key(id) ==> v.tasks[id].attempt < u32::MAX
}

/// Dispatching tasks anew keeps the set of tasks and the counters, and leaves the tasks
/// not named alone.
pub proof fn lemma_redispatched(v: ExecutionView, ids: Seq<Seq<char>>)
    ensures
        redispatched(v, ids).tasks.dom() == v.tasks.dom(),
        redispatched(v, ids).order == v.order,
        redispatched(v, ids).state == v.state,
        execution_laws::counted(v) ==> execution_laws::counted(redispatched(v, ids)),
        forall|k: Seq<char>|
            v.tasks.contains_key(k) && !ids.contains(k) ==> #[trigger] redispatched(v, ids).tasks[k]
                == v.tasks[k],
    decreases ids.len(),
{
    if ids.len() > 0 {
        let init = ids.drop_last();
        lemma_redispatched(v, init);
        let w = redispatched(v, init);
        assert(redispatched(v, ids).tasks.dom() =~= v.tasks.dom());
        if execution_laws::counted(v) {
            execution_laws::lemma_reset_counted(w, ids.last(), false, true);
        }
        assert forall|k: Seq<char>|
            v.tasks.contains_key(k) && !ids.contains(k) implies #[trigger] redispatched(
            v,
            ids,
        ).tasks[k] == v.tasks[k] by {
            if init.contains(k) {
                assert(ids[init.index_of(k)] == k);
            }
            assert(ids[ids.len() - 1] == ids.last());
        }
    }
}

/// The tasks that can run: pending, and waiting for nothing.
pub open spec fn runnable(v: SlotView, k: Seq<char>) -> bool {
    &&& v.pending.contains_key(k)
    &&& v.pending[k] == 0
    &&& v.execution.tasks.contains_key(k)
    &&& v.execution.tasks[k].state == Phase::Pending
}

impl WorkflowSlot {
    /// What the failure of `task_id` leads to.
    pub fn failure_verdict(&self, task_id: &TaskId) -> (d: FailureVerdict)
        ensures
            d == verdict(self@, task_id@),
    {
        if !self.execution.can_transition_task(task_id) {
            return FailureVerdict::Ignore;
        }
        let mut count: u32 = 0;
        if let Some(t) = self.execution.tasks.get(&task_id.0) {
            count = t.retry_count();
            if t.state == Phase::Pending && (count > 0 || !self.execution.nodes_sealed()) {
                return FailureVerdict::Ignore;
            }
        }
        match self.dag.effective_retry_policy(task_id) {
            Some(policy) => {
                if count < policy.max_retries {
                    FailureVerdict::Retry { delay_ms: policy.delay_ms }
                } else {
                    FailureVerdict::Fail
                }
            },
            None => FailureVerdict::Fail,
        }
    }

    /// Puts a task that may move on back to pending for a retry.
    pub fn begin_retry(&mut self, task_id: &TaskId)
        requires
            old(self).wf(),
            execution::transition_allowed(old(self)@.execution, task_id@),
            old(self)@.execution.tasks[task_id@].retry_count < u32::MAX,
            old(self)@.execution.tasks[task_id@].attempt < u32::MAX,
        ensures
            final(self).wf(),
            final(self)@ == retried(old(self)@, task_id@),
    {
        proof {
            execution_laws::lemma_reset_counted(self.execution@, task_id@, true, true);
            assert(slot::pairs(self@.dag) == self.dag.pairs());
        }
        let _ = self.execution.begin_orchestrated_retry(task_id);
        let count: usize = self.dag.predecessor_count(task_id);
        self.pending.insert(task_id.0.clone(), count);
    }

    /// Fails a task. Returns whether the report was accepted, and whether the workflow
    /// has ended with it.
    pub fn fail_task(&mut self, task_id: &TaskId, error: String, mode: FailureScope) -> (r: (
        bool,
        bool,
    ))
        requires
            old(self).wf(),
        ensures
            final(self).wf(),
            final(self)@ == (SlotView {
                execution: execution::task_failed(
                    old(self)@.execution,
                    task_id@,
                    error,
                    mode,
                    None,
                ),
                ..old(self)@
            }),
            r.0 == execution::transition_allowed(old(self)@.execution, task_id@),
            r.1 == (r.0 && final(self)@.execution.state.ended()),
    {
        proof {
            execution_laws::lemma_failed_counted(self.execution@, task_id@, error, mode, None);
        }
        let accepted = self.execution.can_transition_task(task_id);
        self.execution.fail_task(task_id, error, mode, None);
        (accepted, accepted && self.execution.is_terminal())
    }

    /// Cancels the workflow, unless it has ended. Returns whether it had not.
    pub fn cancel(&mut self) -> (cancelled: bool)
        requires
            old(self).wf(),
        ensures
            final(self).wf(),
            cancelled == !old(self)@.execution.state.ended(),
            final(self)@ == (if cancelled {
                SlotView {
                    execution: execution::workflow_cancelled(old(self)@.execution),
                    ..old(self)@
                }
            } else {
                old(self)@
            }),
    {
        if self.execution.is_terminal() {
            return false;
        }
        proof {
            execution_laws::lemma_cancelled_counted(self.execution@);
        }
        self.execution.mark_cancelled();
        true
    }

    /// Cancels one task. Returns whether it was open, and whether the workflow has ended
    /// with it.
    pub fn cancel_task(&mut self, task_id: &TaskId) -> (r: (bool, bool))
        requires
            old(self).wf(),
        ensures
            final(self).wf(),
            r.0 == execution::cancellable(old(self)@.execution, task_id@),
            final(self)@ == (if r.0 {
                SlotView {
                    execution: execution::task_cancelled(old(self)@.execution, task_id@),
                    ..old(self)@
                }
            } else {
                old(self)@
            }),
            r.1 == (!old(self)@.execution.state.ended() && final(self)@.execution.state.ended()),
    {
        proof {
            execution_laws::law_counters_agree_registered(self.execution@, *task_id);
        }
        let was_ended = self.execution.is_terminal();
        let cancelled = self.execution.cancel_open_task(task_id);
        (cancelled, !was_ended && self.execution.is_terminal())
    }

    /// Declares every task known. Returns whether the workflow has ended with it.
    pub fn seal(&mut self, workflow_id: &WorkflowId) -> (r: Result<bool, ActantError>)
        requires
            old(self).wf(),
        ensures
            final(self).wf(),
            if old(self)@.state == SlotState::Loading {
                &&& final(self)@ == old(self)@
                &&& r matches Err(ActantError::InvalidState(m))
                &&& m@ == submit::about_workflow(
                    workflow_id@,
                    " is still loading (placeholder), cannot seal"@,
                )
            } else {
                &&& final(self)@ == SlotView {
                    execution: execution::settled(
                        ExecutionView { sealed: true, ..old(self)@.execution },
                    ),
                    ..old(self)@
                }
                &&& r == Ok::<bool, ActantError>(
                    !old(self)@.execution.state.ended() && final(self)@.execution.state.ended(),
                )
            },
    {
        if self.state == SlotState::Loading {
            return Err(
                ActantError::InvalidState(
                    workflow_message(
                        workflow_id,
                        " is still loading (placeholder), cannot seal",
                    ),
                ),
            );
        }
        let was_ended = self.execution.is_terminal();
        proof {
            execution_laws::lemma_counted_room(self.execution@, Seq::empty());
        }
        self.execution.seal_nodes();
        Ok(!was_ended && self.execution.is_terminal())
    }

    /// Starts the workflow at time `now`. Returns the tasks that wait for nothing.
    pub fn start(&mut self, workflow_id: &WorkflowId, origin: &Option<NodeId>, now: u64) -> (r:
        Result<Vec<TaskDefinition>, ActantError>)
        requires
            old(self).wf(),
        ensures
            final(self).wf(),
            if old(self)@.state == SlotState::Loading {
                &&& final(self)@ == old(self)@
                &&& r matches Err(ActantError::InvalidState(m))
                &&& m@ == submit::about_workflow(
                    workflow_id@,
                    " is still loading (placeholder), cannot start"@,
                )
            } else {
                &&& final(self)@ == SlotView {
                    execution: execution::started(old(self)@.execution, now),
                    ..old(self)@
                }
                &&& r matches Ok(tasks)
                &&& task::task_views(tasks@) == slot::tasks_for(
                    final(self)@,
                    workflow_id@,
                    task::node_text(*origin),
                    root_ids(old(self)@),
                )
            },
    {
        if self.state == SlotState::Loading {
            return Err(
                ActantError::InvalidState(
                    workflow_message(
                        workflow_id,
                        " is still loading (placeholder), cannot start",
                    ),
                ),
            );
        }
        self.execution.mark_running_at(now);
        let ghost ids = root_ids(self@);
        assert(slot::pairs(self@.dag) == self.dag.pairs());
        let roots = self.dag.roots();
        let ghost o = task::node_text(*origin);
        let mut tasks: Vec<TaskDefinition> = Vec::new();
        let mut i: usize = 0;
        while i < roots.len()
            invariant
                i <= roots@.len(),
                self.wf(),
                dag::names_nodes(roots@, self.dag.node_map(), ids),
                o == task::node_text(*origin),
                task::task_views(tasks@) == slot::tasks_for(
                    self@,
                    workflow_id@,
                    o,
                    ids.take(i as int),
                ),
            decreases roots@.len() - i,
        {
            let id = &roots[i].task_id;
            proof {
                assert(self.dag.node_map().contains_key(ids[i as int]));
                assert(id@ == ids[i as int]);
            }
            if let Some(t) = self.build_task(workflow_id, origin, id) {
                let ghost before = tasks@;
                tasks.push(t);
                assert(task::task_views(tasks@) =~= slot::tasks_for(
                    self@,
                    workflow_id@,
                    o,
                    ids.take(i + 1),
                )) by {
                    assert(task::task_views(before).len() == i);
                    assert forall|j: int| 0 <= j < i implies before[j]@ == #[trigger] slot::task_for(
                        self@,
                        workflow_id@,
                        o,
                        ids[j],
                    ) by {
                        assert(task::task_views(before)[j] == before[j]@);
                        assert(ids.take(i as int)[j] == ids[j]);
                    }
                }
            }
            i += 1;
        }
        assert(ids.take(i as int) =~= ids);
        Ok(tasks)
    }

    /// Marks a task running, unless it or the workflow has ended. Returns whether it did.
    pub fn mark_task_running(&mut self, task_id: &TaskId) -> (marked: bool)
        requires
            old(self).wf(),
        ensures
            final(self).wf(),
            marked == execution::transition_allowed(old(self)@.execution, task_id@),
            final(self)@ == (if marked {
                SlotView {
                    execution: execution::task_running(old(self)@.execution, task_id@),
                    ..old(self)@
                }
            } else {
                old(self)@
            }),
    {
        if !self.execution.can_transition_task(task_id) {
            return false;
        }
        proof {
            execution_laws::lemma_reset_counted(self.execution@, task_id@, true, true);
        }
        self.execution.mark_task_running(task_id);
        true
    }

    /// Dispatches a task anew, where it is running or failed.
    pub fn mark_task_pending(&mut self, task_id: &TaskId)
        requires
            old(self).wf(),
            attempt_left(old(self)@.execution, task_id@),
        ensures
            final(self).wf(),
            final(self)@ == (SlotView {
                execution: execution::task_reset(old(self)@.execution, task_id@, false, true),
                ..old(self)@
            }),
    {
        proof {
            execution_laws::lemma_reset_counted(self.execution@, task_id@, false, true);
        }
        self.execution.reset_task(task_id, false, true);
    }

    /// The running tasks.
    pub fn running_task_ids(&self) -> (ids: Vec<TaskId>)
        ensures
            common::task_texts(ids@) == running_ids(self@.execution),
            common::task_texts(ids@).no_duplicates(),
    {
        let ghost v = self@.execution;
        let ghost f = |k: Seq<char>| v.tasks[k].state == Phase::Running;
        let mut ids: Vec<TaskId> = Vec::new();
        let n: usize = self.execution.tasks.len();
        let mut i: usize = 0;
        assert(v.order.take(0).filter(f) =~= Seq::empty()) by {
            reveal(Seq::filter);
        }
        assert(common::task_texts(ids@) =~= Seq::empty());
        while i < n
            invariant
                i <= n,
                n == v.order.len(),
                v == self@.execution,
                f == (|k: Seq<char>| v.tasks[k].state == Phase::Running),
                common::task_texts(ids@) == v.order.take(i as int).filter(f),
                v.order.no_duplicates(),
                common::task_texts(ids@).no_duplicates(),
                forall|k: Seq<char>| #[trigger]
                    common::task_texts(ids@).contains(k) ==> v.order.take(i as int).contains(k),
            decreases n - i,
        {
            let id = self.execution.tasks.key_at(i);
            let t = self.execution.tasks.value_at(i);
            let ghost before = ids@;
            proof {
                assert(v.order.take(i + 1).drop_last() =~= v.order.take(i as int));
                assert(v.order.take(i + 1).last() == id@);
                reveal(Seq::filter);
            }
            let take = t.state == Phase::Running;
            if take {
                ids.push(TaskId(id.clone()));
                assert(common::task_texts(ids@) =~= common::task_texts(before).push(id@));
            }
            proof {
                crate::runtime::workflow::orchestrator::state::lemma_filter_step(
                    v.order,
                    i as int,
                    common::task_texts(before),
                    common::task_texts(ids@),
                    take,
                );
            }
            i += 1;
        }
        assert(v.order.take(i as int) =~= v.order);
        ids
    }

    /// The tasks that can run, in the order of the pending counts.
    pub fn runnable_task_ids(&self) -> (ids: Vec<TaskId>)
        ensures
            common::task_texts(ids@).no_duplicates(),
            forall|k: Seq<char>| #[trigger]
                common::task_texts(ids@).contains(k) <==> runnable(self@, k),
    {
        let ghost v = self@;
        let ghost order = self.pending.order();
        let mut ids: Vec<TaskId> = Vec::new();
        let n: usize = self.pending.len();
        let mut i: usize = 0;
        while i < n
            invariant
                i <= n,
                n == order.len(),
                order == self.pending.order(),
                self.pending.listed(),
                v == self@,
                common::task_texts(ids@).no_duplicates(),
                forall|k: Seq<char>| #[trigger]
                    common::task_texts(ids@).contains(k) <==> runnable(v, k) && order.take(
                        i as int,
                    ).contains(k),
            decreases n - i,
        {
            let id = self.pending.key_at(i);
            let count: usize = *self.pending.value_at(i);
            let ghost before = ids@;
            let pending_task = match self.execution.tasks.get(id) {
                Some(t) => t.state == Phase::Pending,
                None => false,
            };
            let take = count == 0 && pending_task;
            if take {
                ids.push(TaskId(id.clone()));
                assert(common::task_texts(ids@) =~= common::task_texts(before).push(id@));
            }
            proof {
                assert(order.take(i + 1) =~= order.take(i as int).push(id@));
                assert(!order.take(i as int).contains(id@));
                assert(!common::task_texts(before).contains(id@));
                graph::lemma_queue_push(order.take(i as int), order.take(i + 1), id@, true);
                graph::lemma_queue_push(
                    common::task_texts(before),
                    common::task_texts(ids@),
                    id@,
                    take,
                );
            }
            i += 1;
        }
        proof {
            assert(order.take(i as int) =~= order);
        }
        ids
    }
}

/// Dispatches the running tasks of an execution anew.
pub fn redispatch_running(execution: &mut WorkflowExecution)
    requires
        running_attempts_left(old(execution)@),
    ensures
        final(execution)@ == running_redispatched(old(execution)@),
        execution_laws::counted(old(execution)@) ==> execution_laws::counted(final(execution)@),
{
    let ghost before = execution@;
    let ghost order = before.order;
    let ghost after = running_redispatched(before).tasks;
    let n: usize = execution.tasks.len();
    let mut i: usize = 0;
    while i < n
        invariant
            i <= n,
            n == order.len(),
            order == before.order,
            order.no_duplicates(),
            forall|k: Seq<char>| #[trigger] order.contains(k) <==> before.tasks.contains_key(k),
            running_attempts_left(before),
            after == running_redispatched(before).tasks,
            execution@ == (ExecutionView { tasks: execution@.tasks, ..before }),
            execution@.tasks.dom() == before.tasks.dom(),
            forall|j: int|
                0 <= j < i ==> execution@.tasks[#[trigger] order[j]] == after[order[j]],
            forall|j: int|
                i <= j < n ==> execution@.tasks[#[trigger] order[j]] == before.tasks[order[j]],
        decreases n - i,
    {
        proof {
            assert(order.contains(order[i as int]));
        }
        let task = execution.tasks.value_at_mut(i);
        if task.state == Phase::Running {
            task.increment_attempt();
            task.state = Phase::Pending;
            task.result = None;
        }
        proof {
            assert(execution@.tasks.dom() =~= before.tasks.dom());
        }
        i += 1;
    }
    proof {
        assert forall|k: Seq<char>| #[trigger] before.tasks.contains_key(k) implies execution@.tasks[k]
            == after[k] by {
            assert(order.contains(k));
            assert(order[order.index_of(k)] == k);
        }
        assert(execution@.tasks =~= after);
        if execution_laws::counted(before) {
            lemma_running_redispatched(before);
        }
    }
}

/// A retry is dispatched as a new attempt: until it reports, every report of the attempt
/// that failed is ignored.
pub proof fn law_failed_attempt_fenced(v: SlotView, id: Seq<char>)
    requires
        verdict(v, id) is Retry,
    ensures
        v.execution.tasks[id].retry_count < u32::MAX,
        v.execution.tasks[id].attempt < u32::MAX ==> !execution::fencing_passes(
            retried(v, id).execution,
            id,
            Some(v.execution.tasks[id].attempt),
        ) && verdict(retried(v, id), id) is Ignore,
{
}

} // verus!
