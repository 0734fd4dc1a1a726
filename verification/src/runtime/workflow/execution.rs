//! The execution state of a workflow and of its tasks.
use vstd::prelude::*;
use vstd::string::*;
use vstd::utf8::*;

use crate::common::{copy_bytes, epoch_millis, TaskId, WorkflowId};
use crate::keymap::KeyMap;
use crate::runtime::workflow::phase::{FailureScope, FailureStrategy, Phase, Terminal};
use crate::text;
use crate::text::{push_decimal, text_before, truncate_text};

verus! {

/// Where one task stands.
#[derive(Debug)]
pub struct TaskState {
    pub task_id: TaskId,
    pub state: Phase,
    pub result: Option<Vec<u8>>,
    /// Why the task failed, where it did.
    pub error: Option<String>,
    pub retry_count: u32,
    /// The dispatch generation: it grows whenever the task is dispatched anew, and
    /// results of older generations are dropped.
    pub attempt: u32,
}

impl TaskState {
    /// A task that has not been dispatched.
    pub fn fresh(task_id: TaskId) -> (t: Self)
        ensures
            t == fresh_task(task_id),
    {
        TaskState {
            task_id,
            state: Phase::Pending,
            result: None,
            error: None,
            retry_count: 0,
            attempt: 0,
        }
    }

    /// How often the task has been retried.
    pub fn retry_count(&self) -> (n: u32)
        ensures
            n == self.retry_count,
    {
        self.retry_count
    }

    /// The dispatch generation.
    pub fn attempt(&self) -> (n: u32)
        ensures
            n == self.attempt,
    {
        self.attempt
    }

    /// Counts one more retry.
    pub fn increment_retry_count(&mut self)
        requires
            old(self).retry_count < u32::MAX,
        ensures
            *final(self) == (TaskState {
                retry_count: (old(self).retry_count + 1) as u32,
                ..*old(self)
            }),
    {
        self.retry_count += 1;
    }

    /// Starts a new dispatch generation.
    pub fn increment_attempt(&mut self)
        requires
            old(self).attempt < u32::MAX,
        ensures
            *final(self) == (TaskState { attempt: (old(self).attempt + 1) as u32, ..*old(self) }),
    {
        self.attempt += 1;
    }
}

/// A task that has not been dispatched.
pub open spec fn fresh_task(task_id: TaskId) -> TaskState {
    TaskState {
        task_id,
        state: Phase::Pending,
        result: None,
        error: None,
        retry_count: 0,
        attempt: 0,
    }
}

impl Terminal for TaskState {
    open spec fn ended(&self) -> bool {
        self.state.ended()
    }

    fn is_terminal(&self) -> (b: bool) {
        self.state.is_terminal()
    }
}

/// The execution state of a workflow.
#[derive(Debug)]
pub struct WorkflowExecution {
    pub workflow_id: WorkflowId,
    pub state: Phase,
    pub tasks: KeyMap<TaskState>,
    pub succeeded_count: usize,
    pub skipped_count: usize,
    pub total_count: usize,
    pub deadline_ms: Option<u64>,
    pub started_at_ms: Option<u64>,
    pub failure_strategy: FailureStrategy,
    /// Why the workflow failed, where it did.
    pub error: Option<String>,
    /// Whether every task is known. Until then the workflow does not end by itself.
    pub nodes_sealed: bool,
}

/// The mathematical value of a [`WorkflowExecution`].
#[verifier::ext_equal]
pub struct ExecutionView {
    pub workflow_id: Seq<char>,
    pub state: Phase,
    pub tasks: Map<Seq<char>, TaskState>,
    pub order: Seq<Seq<char>>,
    pub succeeded: int,
    pub skipped: int,
    pub total: int,
    pub deadline_ms: Option<u64>,
    pub started_at_ms: Option<u64>,
    pub strategy: FailureStrategy,
    pub error: Option<Seq<char>>,
    pub sealed: bool,
}

impl View for WorkflowExecution {
    type V = ExecutionView;

    open spec fn view(&self) -> ExecutionView {
        ExecutionView {
            workflow_id: self.workflow_id@,
            state: self.state,
            tasks: self.tasks@,
            order: self.tasks.order(),
            succeeded: self.succeeded_count as int,
            skipped: self.skipped_count as int,
            total: self.total_count as int,
            deadline_ms: self.deadline_ms,
            started_at_ms: self.started_at_ms,
            strategy: self.failure_strategy,
            error: match self.error {
                Some(e) => Some(e@),
                None => None,
            },
            sealed: self.nodes_sealed,
        }
    }
}

/// Every task has ended.
pub open spec fn all_ended(tasks: Map<Seq<char>, TaskState>) -> bool {
    forall|k: Seq<char>| #[trigger] tasks.contains_key(k) ==> tasks[k].ended()
}

/// Some task has failed.
pub open spec fn any_failed(tasks: Map<Seq<char>, TaskState>) -> bool {
    exists|k: Seq<char>| #[trigger] tasks.contains_key(k) && tasks[k].state == Phase::Failed
}

/// At most this many failed tasks are listed in a workflow's error message.
pub const MAX_FAILED_SUMMARY_ENTRIES: usize = 10;

/// At most this many bytes of a task's error are shown in a workflow's error message.
pub const MAX_FAILED_ERROR_LEN: usize = 200;

/// A task's error as the summary shows it: cut at a character boundary and marked where
/// it is too long.
pub open spec fn clipped(error: Seq<char>) -> Seq<char> {
    if encode_utf8(error).len() > MAX_FAILED_ERROR_LEN {
        text::prefix_within(error, MAX_FAILED_ERROR_LEN as int) + "…"@
    } else {
        error
    }
}

/// One failed task as the summary shows it.
pub open spec fn failed_entry(id: Seq<char>, t: TaskState) -> Seq<char> {
    id + ": "@ + clipped(match t.error {
        Some(e) => e@,
        None => ""@,
    })
}

/// The failed tasks among `order`.
pub open spec fn failed_ids(
    order: Seq<Seq<char>>,
    tasks: Map<Seq<char>, TaskState>,
) -> Seq<Seq<char>>
    decreases order.len(),
{
    if order.len() == 0 {
        Seq::empty()
    } else {
        let init = failed_ids(order.drop_last(), tasks);
        if tasks[order.last()].state == Phase::Failed {
            init.push(order.last())
        } else {
            init
        }
    }
}

/// The entries of `ids`, separated by commas.
pub open spec fn joined_entries(
    ids: Seq<Seq<char>>,
    tasks: Map<Seq<char>, TaskState>,
) -> Seq<char>
    decreases ids.len(),
{
    if ids.len() == 0 {
        Seq::empty()
    } else if ids.len() == 1 {
        failed_entry(ids.last(), tasks[ids.last()])
    } else {
        joined_entries(ids.drop_last(), tasks) + ", "@ + failed_entry(
            ids.last(),
            tasks[ids.last()],
        )
    }
}

/// The error message of a workflow that ends with failed tasks: the first ten of them
/// with their errors, and how many there are where there are more.
pub open spec fn failed_summary(
    order: Seq<Seq<char>>,
    tasks: Map<Seq<char>, TaskState>,
) -> Seq<char> {
    let ids = failed_ids(order, tasks);
    if ids.len() > MAX_FAILED_SUMMARY_ENTRIES {
        "failed tasks (10 of "@ + text::decimal(ids.len()) + "): ["@ + joined_entries(
            ids.take(MAX_FAILED_SUMMARY_ENTRIES as int),
            tasks,
        ) + "]"@
    } else {
        "failed tasks: ["@ + joined_entries(ids, tasks) + "]"@
    }
}

/// What becomes of a workflow once its tasks are looked at: it completes when all tasks
/// succeeded or were skipped; where failures do not stop it, it ends with its last task,
/// failed if any task failed.
pub open spec fn settled(v: ExecutionView) -> ExecutionView {
    if v.state.ended() || !v.sealed {
        v
    } else if v.succeeded + v.skipped == v.total {
        ExecutionView { state: Phase::Completed, ..v }
    } else if v.strategy != FailureStrategy::FailFast && all_ended(v.tasks) {
        if any_failed(v.tasks) {
            ExecutionView {
                state: Phase::Failed,
                error: Some(failed_summary(v.order, v.tasks)),
                ..v
            }
        } else {
            ExecutionView { state: Phase::Completed, ..v }
        }
    } else {
        v
    }
}

/// A task may move on: it exists, and neither it nor the workflow has ended.
pub open spec fn transition_allowed(v: ExecutionView, id: Seq<char>) -> bool {
    !v.state.ended() && v.tasks.contains_key(id) && !v.tasks[id].ended()
}

/// A result is current: it does not come from an older dispatch generation than the
/// task's. Results that carry no generation pass.
pub open spec fn fencing_passes(v: ExecutionView, id: Seq<char>, attempt: Option<u32>) -> bool {
    match attempt {
        Some(a) => v.tasks.contains_key(id) ==> v.tasks[id].attempt <= a,
        None => true,
    }
}

/// `v` with `id` completed by `result`, or `v` itself where the result is not accepted.
pub open spec fn task_completed(
    v: ExecutionView,
    id: Seq<char>,
    result: Vec<u8>,
    attempt: Option<u32>,
) -> ExecutionView {
    if transition_allowed(v, id) && fencing_passes(v, id, attempt) {
        settled(
            ExecutionView {
                tasks: v.tasks.insert(
                    id,
                    TaskState { state: Phase::Completed, result: Some(result), ..v.tasks[id] },
                ),
                succeeded: v.succeeded + 1,
                ..v
            },
        )
    } else {
        v
    }
}

/// `v` with `id` skipped, unless it has ended.
pub open spec fn task_skipped(v: ExecutionView, id: Seq<char>) -> ExecutionView {
    if !v.tasks.contains_key(id) {
        settled(v)
    } else if v.tasks[id].ended() {
        v
    } else {
        settled(
            ExecutionView {
                tasks: v.tasks.insert(id, TaskState { state: Phase::Skipped, ..v.tasks[id] }),
                skipped: v.skipped + 1,
                ..v
            },
        )
    }
}

/// `v` with `id` failed by `error`, or `v` itself where the report is not accepted.
pub open spec fn task_failed(
    v: ExecutionView,
    id: Seq<char>,
    error: String,
    scope: FailureScope,
    attempt: Option<u32>,
) -> ExecutionView {
    if !(transition_allowed(v, id) && fencing_passes(v, id, attempt)) {
        v
    } else {
        let w = ExecutionView {
            tasks: v.tasks.insert(
                id,
                TaskState { state: Phase::Failed, error: Some(error), ..v.tasks[id] },
            ),
            ..v
        };
        if scope == FailureScope::TaskOnly {
            w
        } else if v.strategy == FailureStrategy::FailFast {
            ExecutionView { state: Phase::Failed, error: Some(error@), ..w }
        } else if v.sealed && all_ended(w.tasks) {
            ExecutionView {
                state: Phase::Failed,
                error: Some(failed_summary(w.order, w.tasks)),
                ..w
            }
        } else {
            w
        }
    }
}

/// Whether a reset changes the task: a retry applies to failed tasks, a new dispatch to
/// tasks that are running or failed.
pub open spec fn reset_applies(v: ExecutionView, id: Seq<char>, retry: bool) -> bool {
    &&& v.tasks.contains_key(id)
    &&& if retry {
        v.tasks[id].state == Phase::Failed
    } else {
        v.tasks[id].state == Phase::Running || v.tasks[id].state == Phase::Failed
    }
}

/// `t` back to pending, with the counters moved on as asked.
pub open spec fn reset_state(t: TaskState, retry: bool, attempt: bool) -> TaskState {
    TaskState {
        state: Phase::Pending,
        result: None,
        retry_count: (if retry {
            t.retry_count + 1
        } else {
            t.retry_count as int
        }) as u32,
        attempt: (if attempt {
            t.attempt + 1
        } else {
            t.attempt as int
        }) as u32,
        ..t
    }
}

/// `v` with `id` reset, where the reset applies.
pub open spec fn task_reset(
    v: ExecutionView,
    id: Seq<char>,
    retry: bool,
    attempt: bool,
) -> ExecutionView {
    if reset_applies(v, id, retry) {
        ExecutionView { tasks: v.tasks.insert(id, reset_state(v.tasks[id], retry, attempt)), ..v }
    } else {
        v
    }
}

/// `v` failed as a whole: running tasks fail with it.
pub open spec fn workflow_failed(v: ExecutionView, error: String) -> ExecutionView {
    ExecutionView {
        state: Phase::Failed,
        error: Some(error@),
        tasks: v.tasks.map_values(
            |t: TaskState|
                if t.state == Phase::Running {
                    TaskState { state: Phase::Failed, error: Some(error), ..t }
                } else {
                    t
                },
        ),
        ..v
    }
}

/// `v` cancelled as a whole, and its running tasks with it. A workflow that has ended
/// stays as it is.
pub open spec fn workflow_cancelled(v: ExecutionView) -> ExecutionView {
    if v.state.ended() {
        v
    } else {
        ExecutionView {
            state: Phase::Cancelled,
            tasks: v.tasks.map_values(
                |t: TaskState|
                    if t.state == Phase::Running {
                        TaskState { state: Phase::Cancelled, ..t }
                    } else {
                        t
                    },
            ),
            ..v
        }
    }
}

/// `v` running, with its start time kept where it has one.
pub open spec fn started(v: ExecutionView, now: u64) -> ExecutionView {
    ExecutionView {
        state: Phase::Running,
        started_at_ms: if v.started_at_ms is None {
            Some(now)
        } else {
            v.started_at_ms
        },
        ..v
    }
}

/// The results of `tasks` listed by ascending identifier.
pub open spec fn results_listing(
    tasks: Map<Seq<char>, TaskState>,
    ids: Seq<Seq<char>>,
    results: Seq<Vec<u8>>,
) -> bool {
    &&& ids.len() == results.len()
    &&& forall|i: int, j: int|
        #![trigger ids[i], ids[j]]
        0 <= i < j < ids.len() ==> text::text_lt(ids[i], ids[j])
    &&& forall|i: int|
        0 <= i < ids.len() ==> tasks.contains_key(#[trigger] ids[i])
            && tasks[ids[i]].result is Some && results[i]@ == tasks[ids[i]].result->0@
    &&& forall|k: Seq<char>| #[trigger]
        tasks.contains_key(k) && tasks[k].result is Some ==> ids.contains(k)
}

impl WorkflowExecution {
    /// The number of tasks that completed.
    pub fn succeeded_count(&self) -> (n: usize)
        ensures
            n == self@.succeeded,
    {
        self.succeeded_count
    }

    /// The number of tasks that the workflow was created with or has been given since.
    pub fn total_count(&self) -> (n: usize)
        ensures
            n == self@.total,
    {
        self.total_count
    }

    /// How long the workflow may run.
    pub fn deadline_ms(&self) -> (d: Option<u64>)
        ensures
            d == self@.deadline_ms,
    {
        self.deadline_ms
    }

    /// When the workflow started.
    pub fn started_at_ms(&self) -> (t: Option<u64>)
        ensures
            t == self@.started_at_ms,
    {
        self.started_at_ms
    }

    /// Whether every task is known.
    pub fn nodes_sealed(&self) -> (b: bool)
        ensures
            b == self@.sealed,
    {
        self.nodes_sealed
    }

    /// Limits how long the workflow may run.
    pub fn set_deadline_ms(&mut self, deadline: u64)
        ensures
            final(self)@ == (ExecutionView { deadline_ms: Some(deadline), ..old(self)@ }),
    {
        self.deadline_ms = Some(deadline);
    }

    /// A workflow whose tasks are all known and pending.
    pub fn new(workflow_id: WorkflowId, task_ids: Vec<TaskId>) -> (e: Self)
        ensures
            e@ == new_execution(workflow_id@, task_ids@),
    {
        let total: usize = task_ids.len();
        let mut tasks: KeyMap<TaskState> = KeyMap::new();
        let mut i: usize = 0;
        while i < task_ids.len()
            invariant
                i <= task_ids@.len(),
                tasks@ == fresh_tasks(task_ids@.take(i as int)),
                tasks.order() == fresh_order(task_ids@.take(i as int)),
                tasks.listed(),
            decreases task_ids@.len() - i,
        {
            let id = task_ids[i].clone();
            proof {
                assert(task_ids@.take(i + 1).drop_last() =~= task_ids@.take(i as int));
                lemma_fresh_order(task_ids@.take(i as int));
            }
            tasks.insert(id.0.clone(), TaskState::fresh(id));
            i += 1;
        }
        assert(task_ids@.take(i as int) =~= task_ids@);
        WorkflowExecution {
            workflow_id,
            state: Phase::Pending,
            tasks,
            succeeded_count: 0,
            skipped_count: 0,
            total_count: total,
            deadline_ms: None,
            started_at_ms: None,
            failure_strategy: FailureStrategy::FailFast,
            error: None,
            nodes_sealed: true,
        }
    }

    /// A workflow whose tasks are still to come.
    pub fn open(workflow_id: WorkflowId) -> (e: Self)
        ensures
            e@ == open_execution(workflow_id@),
    {
        WorkflowExecution {
            workflow_id,
            state: Phase::Pending,
            tasks: KeyMap::new(),
            succeeded_count: 0,
            skipped_count: 0,
            total_count: 0,
            deadline_ms: None,
            started_at_ms: None,
            failure_strategy: FailureStrategy::FailFast,
            error: None,
            nodes_sealed: false,
        }
    }

    /// The same workflow with another failure strategy.
    pub fn with_failure_strategy(self, strategy: FailureStrategy) -> (e: Self)
        ensures
            e@ == (ExecutionView { strategy, ..self@ }),
    {
        let mut e = self;
        e.failure_strategy = strategy;
        e
    }

    /// Marks the workflow running as of `now`.
    pub fn mark_running_at(&mut self, now: u64)
        ensures
            final(self)@ == started(old(self)@, now),
    {
        self.state = Phase::Running;
        if self.started_at_ms.is_none() {
            self.started_at_ms = Some(now);
        }
    }

    /// Marks the workflow running. The start time, where there is none yet, is read from
    /// the clock.
    pub fn mark_running(&mut self)
        ensures
            exists|now: u64| final(self)@ == #[trigger] started(old(self)@, now),
    {
        let now: u64 = epoch_millis();
        self.mark_running_at(now);
    }

    /// Whether the workflow has run past its deadline at `now`.
    pub fn is_expired_at(&self, now: u64) -> (b: bool)
        ensures
            b == expired(self@, now),
    {
        match (self.deadline_ms, self.started_at_ms) {
            (Some(deadline), Some(started)) => now as u128 > started as u128 + deadline as u128,
            _ => false,
        }
    }

    /// Whether the workflow has run past its deadline by the clock.
    pub fn is_expired(&self) -> (b: bool)
        ensures
            exists|now: u64| b == #[trigger] expired(self@, now),
    {
        let now: u64 = epoch_millis();
        self.is_expired_at(now)
    }

    /// Marks a task running.
    pub fn mark_task_running(&mut self, task_id: &TaskId)
        ensures
            final(self)@ == task_running(old(self)@, task_id@),
    {
        if let Some(task) = self.tasks.get_mut(&task_id.0) {
            task.state = Phase::Running;
        }
    }

    /// Whether a result of dispatch generation `result_attempt` is current.
    pub fn attempt_fencing_passes(&self, task_id: &TaskId, result_attempt: Option<u32>) -> (b: bool)
        ensures
            b == fencing_passes(self@, task_id@, result_attempt),
    {
        match result_attempt {
            Some(a) => match self.tasks.get(&task_id.0) {
                Some(task) => task.attempt <= a,
                None => true,
            },
            None => true,
        }
    }

    /// Whether the task may move on.
    pub fn can_transition_task(&self, task_id: &TaskId) -> (b: bool)
        ensures
            b == transition_allowed(self@, task_id@),
    {
        if self.state.is_terminal() {
            return false;
        }
        match self.tasks.get(&task_id.0) {
            Some(t) => !t.state.is_terminal(),
            None => false,
        }
    }

    /// Completes a task. Returns whether the result was accepted.
    pub fn mark_task_completed(
        &mut self,
        task_id: &TaskId,
        result: Vec<u8>,
        result_attempt: Option<u32>,
    ) -> (accepted: bool)
        requires
            transition_allowed(old(self)@, task_id@) ==> old(self)@.succeeded + old(self)@.skipped
                < usize::MAX,
        ensures
            accepted == (transition_allowed(old(self)@, task_id@) && fencing_passes(
                old(self)@,
                task_id@,
                result_attempt,
            )),
            final(self)@ == task_completed(old(self)@, task_id@, result, result_attempt),
    {
        if !self.can_transition_task(task_id) || !self.attempt_fencing_passes(
            task_id,
            result_attempt,
        ) {
            return false;
        }
        if let Some(task) = self.tasks.get_mut(&task_id.0) {
            task.state = Phase::Completed;
            task.result = Some(result);
        }
        self.succeeded_count += 1;
        self.check_workflow_completion();
        true
    }

    /// Skips a task whose branch is not taken.
    pub fn mark_task_skipped(&mut self, task_id: &TaskId)
        requires
            old(self)@.succeeded + old(self)@.skipped <= usize::MAX,
            old(self)@.tasks.contains_key(task_id@) && !old(self)@.tasks[task_id@].ended()
                ==> old(self)@.succeeded + old(self)@.skipped < usize::MAX,
        ensures
            final(self)@ == task_skipped(old(self)@, task_id@),
    {
        let ghost before = self@;
        if let Some(task) = self.tasks.get_mut(&task_id.0) {
            if task.state.is_terminal() {
                assert(before.tasks.insert(task_id@, before.tasks[task_id@]) =~= before.tasks);
                return;
            }
            task.state = Phase::Skipped;
            self.skipped_count += 1;
        }
        self.check_workflow_completion();
    }

    fn all_tasks_ended(&self) -> (b: bool)
        ensures
            b == all_ended(self@.tasks),
    {
        let n: usize = self.tasks.len();
        let mut i: usize = 0;
        while i < n
            invariant
                i <= n,
                n == self.tasks.order().len(),
                self.tasks.listed(),
                forall|j: int|
                    0 <= j < i ==> self.tasks@[#[trigger] self.tasks.order()[j]].ended(),
            decreases n - i,
        {
            if !self.tasks.value_at(i).is_terminal() {
                return false;
            }
            i += 1;
        }
        assert forall|k: Seq<char>| #[trigger] self.tasks@.contains_key(k) implies self.tasks@[k].ended() by {
            assert(self.tasks.order().contains(k));
            let j = self.tasks.order().index_of(k);
            assert(self.tasks.order()[j] == k);
        }
        true
    }

    fn any_task_failed(&self) -> (b: bool)
        ensures
            b == any_failed(self@.tasks),
    {
        let n: usize = self.tasks.len();
        let mut i: usize = 0;
        while i < n
            invariant
                i <= n,
                n == self.tasks.order().len(),
                self.tasks.listed(),
                forall|j: int|
                    0 <= j < i ==> self.tasks@[#[trigger] self.tasks.order()[j]].state
                        != Phase::Failed,
            decreases n - i,
        {
            if self.tasks.value_at(i).state == Phase::Failed {
                assert(self.tasks@.contains_key(self.tasks.order()[i as int]));
                return true;
            }
            i += 1;
        }
        assert forall|k: Seq<char>| #[trigger] self.tasks@.contains_key(k) implies self.tasks@[k].state != Phase::Failed by {
            assert(self.tasks.order().contains(k));
            let j = self.tasks.order().index_of(k);
            assert(self.tasks.order()[j] == k);
        }
        false
    }

    /// Ends the workflow where its tasks leave nothing to do.
    fn check_workflow_completion(&mut self)
        requires
            old(self)@.succeeded + old(self)@.skipped <= usize::MAX,
        ensures
            final(self)@ == settled(old(self)@),
    {
        if self.state.is_terminal() || !self.nodes_sealed {
            return;
        }
        if self.succeeded_count + self.skipped_count == self.total_count {
            self.state = Phase::Completed;
        } else if self.failure_strategy != FailureStrategy::FailFast {
            if self.all_tasks_ended() {
                if self.any_task_failed() {
                    let msg = self.collect_failed_summary();
                    self.set_failed(msg);
                } else {
                    self.state = Phase::Completed;
                }
            }
        }
    }

    fn set_failed(&mut self, error: String)
        ensures
            final(self)@ == (ExecutionView {
                state: Phase::Failed,
                error: Some(error@),
                ..old(self)@
            }),
    {
        self.error = Some(error);
        self.state = Phase::Failed;
    }

    /// Fails a task, and the workflow as its failure strategy and `mode` say.
    pub fn fail_task(
        &mut self,
        task_id: &TaskId,
        error: String,
        mode: FailureScope,
        result_attempt: Option<u32>,
    )
        ensures
            final(self)@ == task_failed(old(self)@, task_id@, error, mode, result_attempt),
    {
        if !self.can_transition_task(task_id) || !self.attempt_fencing_passes(
            task_id,
            result_attempt,
        ) {
            return;
        }
        if let Some(task) = self.tasks.get_mut(&task_id.0) {
            task.state = Phase::Failed;
            task.error = Some(error.clone());
        }
        proof {
            assert(self@.tasks.contains_key(task_id@));
            assert(self@.tasks[task_id@].state == Phase::Failed);
        }
        match mode {
            FailureScope::TaskOnly => {},
            FailureScope::WorkflowLevel => {
                if self.failure_strategy == FailureStrategy::FailFast {
                    self.set_failed(error);
                } else {
                    if self.nodes_sealed && self.all_tasks_ended() {
                        if self.any_task_failed() {
                            let msg = self.collect_failed_summary();
                            self.set_failed(msg);
                        }
                    }
                }
            },
        }
    }

    /// The error message of a workflow that ends with failed tasks.
    fn collect_failed_summary(&self) -> (m: String)
        ensures
            m@ == failed_summary(self@.order, self@.tasks),
    {
        let ghost order = self.tasks.order();
        let ghost tasks = self.tasks@;
        let mut listing = String::new();
        let mut total_failed: u64 = 0;
        let n: usize = self.tasks.len();
        let mut i: usize = 0;
        assert(order.take(0) =~= Seq::empty());
        while i < n
            invariant
                i <= n,
                n == order.len(),
                order == self.tasks.order(),
                tasks == self.tasks@,
                total_failed == failed_ids(order.take(i as int), tasks).len(),
                total_failed <= i,
                listing@ == joined_entries(
                    first_entries(failed_ids(order.take(i as int), tasks)),
                    tasks,
                ),
            decreases n - i,
        {
            let id = self.tasks.key_at(i);
            let t = self.tasks.value_at(i);
            let ghost ids = failed_ids(order.take(i as int), tasks);
            proof {
                assert(order.take(i + 1).drop_last() =~= order.take(i as int));
                assert(order.take(i + 1).last() == id@);
            }
            if t.state == Phase::Failed {
                if total_failed < MAX_FAILED_SUMMARY_ENTRIES as u64 {
                    proof {
                        assert(first_entries(ids.push(id@)) =~= first_entries(ids).push(id@));
                        assert(first_entries(ids).push(id@).drop_last() =~= first_entries(ids));
                    }
                    if total_failed > 0 {
                        listing.append(", ");
                    }
                    let ghost prefix = listing@;
                    listing.append(id.as_str());
                    listing.append(": ");
                    let e: &str = match &t.error {
                        Some(e) => e.as_str(),
                        None => "",
                    };
                    if e.as_bytes().len() > MAX_FAILED_ERROR_LEN {
                        listing.append(truncate_text(e, MAX_FAILED_ERROR_LEN));
                        listing.append("…");
                    } else {
                        listing.append(e);
                    }
                    assert(listing@ =~= prefix + failed_entry(id@, *t));
                    assert(listing@ =~= joined_entries(first_entries(ids.push(id@)), tasks));
                } else {
                    assert(first_entries(ids.push(id@)) =~= first_entries(ids));
                }
                total_failed += 1;
            }
            i += 1;
        }
        assert(order.take(n as int) =~= order);
        let mut m = String::new();
        if total_failed > MAX_FAILED_SUMMARY_ENTRIES as u64 {
            m.append("failed tasks (10 of ");
            push_decimal(&mut m, total_failed);
            m.append("): [");
        } else {
            assert(first_entries(failed_ids(order, tasks)) =~= failed_ids(order, tasks));
            m.append("failed tasks: [");
        }
        m.append(listing.as_str());
        m.append("]");
        assert(m@ =~= failed_summary(order, tasks));
        m
    }

    /// Resets a task to pending, for a retry or a new dispatch. Only a running or failed
    /// task is reset.
    pub fn reset_task(&mut self, task_id: &TaskId, increment_retry: bool, increment_attempt: bool)
        requires
            reset_applies(old(self)@, task_id@, increment_retry) ==> {
                &&& increment_retry ==> old(self)@.tasks[task_id@].retry_count < u32::MAX
                &&& increment_attempt ==> old(self)@.tasks[task_id@].attempt < u32::MAX
            },
        ensures
            final(self)@ == task_reset(old(self)@, task_id@, increment_retry, increment_attempt),
    {
        let ghost before = self@;
        if let Some(task) = self.tasks.get_mut(&task_id.0) {
            let applies = if increment_retry {
                match task.state {
                    Phase::Failed => true,
                    _ => false,
                }
            } else {
                match task.state {
                    Phase::Running | Phase::Failed => true,
                    _ => false,
                }
            };
            if !applies {
                assert(before.tasks.insert(task_id@, before.tasks[task_id@]) =~= before.tasks);
                return;
            }
            if increment_retry {
                task.increment_retry_count();
            }
            if increment_attempt {
                task.increment_attempt();
            }
            task.state = Phase::Pending;
            task.result = None;
        }
    }

    /// Whether the workflow has failed.
    pub fn is_workflow_failed(&self) -> (b: bool)
        ensures
            b == (self@.state == Phase::Failed),
    {
        match self.state {
            Phase::Failed => true,
            _ => false,
        }
    }

    /// Fails the workflow, and its running tasks with it.
    pub fn mark_workflow_failed(&mut self, error: String)
        ensures
            final(self)@ == workflow_failed(old(self)@, error),
    {
        let ghost before = self@;
        let n: usize = self.tasks.len();
        let mut i: usize = 0;
        while i < n
            invariant
                i <= n,
                n == before.order.len(),
                before.order.no_duplicates(),
                forall|k: Seq<char>| #[trigger]
                    before.order.contains(k) <==> before.tasks.contains_key(k),
                self@ == (ExecutionView { tasks: self@.tasks, ..before }),
                self@.tasks.dom() == before.tasks.dom(),
                forall|j: int|
                    0 <= j < i ==> self@.tasks[#[trigger] before.order[j]] == workflow_failed(
                        before,
                        error,
                    ).tasks[before.order[j]],
                forall|j: int|
                    i <= j < n ==> self@.tasks[#[trigger] before.order[j]]
                        == before.tasks[before.order[j]],
            decreases n - i,
        {
            let task = self.tasks.value_at_mut(i);
            if task.state == Phase::Running {
                task.state = Phase::Failed;
                task.error = Some(error.clone());
            }
            proof {
                assert(before.order.contains(before.order[i as int]));
                assert(self@.tasks.dom() =~= before.tasks.dom());
            }
            i += 1;
        }
        proof {
            assert forall|k: Seq<char>| #[trigger] before.tasks.contains_key(k) implies self@.tasks[k]
                == workflow_failed(before, error).tasks[k] by {
                assert(before.order.contains(k));
                assert(before.order[before.order.index_of(k)] == k);
            }
            assert(self@.tasks =~= workflow_failed(before, error).tasks);
        }
        self.set_failed(error);
    }

    /// Cancels the workflow, and its running tasks with it. One that has ended stays as it
    /// is.
    pub fn mark_cancelled(&mut self)
        ensures
            final(self)@ == workflow_cancelled(old(self)@),
    {
        if self.is_terminal() {
            return;
        }
        let ghost before = self@;
        let n: usize = self.tasks.len();
        let mut i: usize = 0;
        while i < n
            invariant
                i <= n,
                n == before.order.len(),
                !before.state.ended(),
                before.order.no_duplicates(),
                forall|k: Seq<char>| #[trigger]
                    before.order.contains(k) <==> before.tasks.contains_key(k),
                self@ == (ExecutionView { tasks: self@.tasks, ..before }),
                self@.tasks.dom() == before.tasks.dom(),
                forall|j: int|
                    0 <= j < i ==> self@.tasks[#[trigger] before.order[j]] == workflow_cancelled(
                        before,
                    ).tasks[before.order[j]],
                forall|j: int|
                    i <= j < n ==> self@.tasks[#[trigger] before.order[j]]
                        == before.tasks[before.order[j]],
            decreases n - i,
        {
            let task = self.tasks.value_at_mut(i);
            if task.state == Phase::Running {
                task.state = Phase::Cancelled;
            }
            proof {
                assert(before.order.contains(before.order[i as int]));
                assert(self@.tasks.dom() =~= before.tasks.dom());
            }
            i += 1;
        }
        proof {
            assert forall|k: Seq<char>| #[trigger] before.tasks.contains_key(k) implies self@.tasks[k]
                == workflow_cancelled(before).tasks[k] by {
                assert(before.order.contains(k));
                assert(before.order[before.order.index_of(k)] == k);
            }
            assert(self@.tasks =~= workflow_cancelled(before).tasks);
        }
        self.state = Phase::Cancelled;
    }

    /// Cancels a running task. Returns whether it was running.
    pub fn cancel_task(&mut self, task_id: &TaskId) -> (cancelled: bool)
        ensures
            cancelled == (old(self)@.tasks.contains_key(task_id@)
                && old(self)@.tasks[task_id@].state == Phase::Running),
            final(self)@ == (if cancelled {
                ExecutionView {
                    tasks: old(self)@.tasks.insert(
                        task_id@,
                        TaskState { state: Phase::Cancelled, ..old(self)@.tasks[task_id@] },
                    ),
                    ..old(self)@
                }
            } else {
                old(self)@
            }),
    {
        let ghost before = self@;
        if let Some(task) = self.tasks.get_mut(&task_id.0) {
            match task.state {
                Phase::Running => {
                    task.state = Phase::Cancelled;
                    return true;
                },
                _ => {
                    assert(before.tasks.insert(task_id@, before.tasks[task_id@]) =~= before.tasks);
                },
            }
        }
        false
    }

    /// The results of the tasks, by ascending task identifier.
    pub fn collected_results(&self) -> (r: Vec<Vec<u8>>)
        ensures
            exists|ids: Seq<Seq<char>>| results_listing(self@.tasks, ids, r@),
    {
        let ghost order = self.tasks.order();
        let ghost tasks = self.tasks@;
        let mut ids: Vec<String> = Vec::new();
        let mut results: Vec<Vec<u8>> = Vec::new();
        let n: usize = self.tasks.len();
        let mut i: usize = 0;
        while i < n
            invariant
                i <= n,
                n == order.len(),
                order == self.tasks.order(),
                tasks == self.tasks@,
                self.tasks.listed(),
                ids@.len() == results@.len(),
                ascending(ids@),
                forall|j: int|
                    0 <= j < ids@.len() ==> order.take(i as int).contains((#[trigger] ids@[j])@)
                        && tasks[ids@[j]@].result is Some && results@[j]@
                        == tasks[ids@[j]@].result->0@,
                forall|q: int|
                    0 <= q < i && tasks[#[trigger] order[q]].result is Some ==> exists|j: int|
                        0 <= j < ids@.len() && (#[trigger] ids@[j])@ == order[q],
            decreases n - i,
        {
            let id = self.tasks.key_at(i);
            let t = self.tasks.value_at(i);
            let ghost ids0 = ids@;
            let ghost results0 = results@;
            assert forall|x: Seq<char>| #[trigger] order.take(i as int).contains(x) implies order.take(
                i + 1,
            ).contains(x) && x != id@ by {
                let q = order.take(i as int).index_of(x);
                assert(order.take(i + 1)[q] == x);
                assert(order[q] == x);
            }
            assert(order.take(i + 1)[i as int] == id@);
            if let Some(bytes) = &t.result {
                let mut p: usize = ids.len();
                while p > 0 && text_before(id, &ids[p - 1])
                    invariant
                        p <= ids@.len(),
                        ids@ == ids0,
                        forall|j: int|
                            p <= j < ids@.len() ==> text::text_lt(id@, (#[trigger] ids@[j])@),
                    decreases p,
                {
                    p -= 1;
                }
                proof {
                    if p > 0 {
                        text::lemma_text_total(ids0[p - 1]@, id@);
                        assert(order.take(i as int).contains(ids0[p - 1]@));
                    }
                    assert forall|j: int| 0 <= j < p implies text::text_lt(
                        (#[trigger] ids0[j])@,
                        id@,
                    ) by {
                        if j < p - 1 {
                            text::lemma_text_transitive(ids0[j]@, ids0[p - 1]@, id@);
                        }
                    }
                }
                ids.insert(p, id.clone());
                results.insert(p, copy_bytes(bytes));
                proof {
                    assert(ascending(ids@)) by {
                        assert forall|a: int, b: int|
                            #![trigger ids@[a], ids@[b]]
                            0 <= a < b < ids@.len() implies text::text_lt(ids@[a]@, ids@[b]@) by {
                            let a0 = if a < p { a } else { a - 1 };
                            let b0 = if b < p { b } else { b - 1 };
                            if a != p && b != p {
                                assert(text::text_lt(ids0[a0]@, ids0[b0]@));
                            } else if a == p {
                                assert(text::text_lt(id@, ids0[b0]@));
                            } else {
                                assert(text::text_lt(ids0[a0]@, id@));
                            }
                        }
                    }
                    assert forall|j: int| 0 <= j < ids@.len() implies order.take(i + 1).contains(
                        (#[trigger] ids@[j])@,
                    ) && tasks[ids@[j]@].result is Some && results@[j]@
                        == tasks[ids@[j]@].result->0@ by {
                        let j0 = if j < p { j } else { j - 1 };
                        if j != p {
                            assert(ids@[j] == ids0[j0]);
                        }
                    }
                    assert forall|q: int|
                        0 <= q < i + 1 && tasks[#[trigger] order[q]].result is Some implies exists|
                        j: int,
                    | 0 <= j < ids@.len() && (#[trigger] ids@[j])@ == order[q] by {
                        if q == i {
                            assert(ids@[p as int]@ == order[q]);
                        } else {
                            let j = choose|j: int|
                                0 <= j < ids0.len() && (#[trigger] ids0[j])@ == order[q];
                            assert(ids@[if j < p { j } else { j + 1 }]@ == order[q]);
                        }
                    }
                }
            }
            i += 1;
        }
        proof {
            let listed = Seq::new(ids@.len(), |j: int| ids@[j]@);
            assert(order.take(n as int) =~= order);
            assert(results_listing(tasks, listed, results@)) by {
                assert forall|a: int, b: int|
                    #![trigger listed[a], listed[b]]
                    0 <= a < b < listed.len() implies text::text_lt(listed[a], listed[b]) by {
                    assert(text::text_lt(ids@[a]@, ids@[b]@));
                }
                assert forall|j: int| 0 <= j < listed.len() implies tasks.contains_key(
                    #[trigger] listed[j],
                ) && tasks[listed[j]].result is Some && results@[j]@
                    == tasks[listed[j]].result->0@ by {
                    assert(order.contains(ids@[j]@));
                }
                assert forall|k: Seq<char>| #[trigger]
                    tasks.contains_key(k) && tasks[k].result is Some implies listed.contains(k) by {
                    assert(order.contains(k));
                    let q = order.index_of(k);
                    assert(order[q] == k);
                    let j = choose|j: int| 0 <= j < ids@.len() && (#[trigger] ids@[j])@ == order[q];
                    assert(listed[j] == k);
                }
            }
            assert(results_listing(self@.tasks, listed, results@));
        }
        results
    }

    /// Adds a pending task, unless the workflow has it already.
    pub fn register_task(&mut self, task_id: TaskId)
        requires
            old(self)@.total < usize::MAX,
        ensures
            final(self)@ == task_registered(old(self)@, task_id),
    {
        if self.tasks.contains_key(&task_id.0) {
            return;
        }
        self.tasks.insert(task_id.0.clone(), TaskState::fresh(task_id));
        self.total_count += 1;
    }

    /// Cancels a pending or running task of a workflow that has not ended, and ends the
    /// workflow where that was its last open task. Returns whether the task was open.
    pub fn cancel_open_task(&mut self, task_id: &TaskId) -> (cancelled: bool)
        ensures
            cancelled == cancellable(old(self)@, task_id@),
            final(self)@ == (if cancelled {
                task_cancelled(old(self)@, task_id@)
            } else {
                old(self)@
            }),
    {
        let ghost before = self@;
        if let Some(task) = self.tasks.get_mut(&task_id.0) {
            match task.state {
                Phase::Pending | Phase::Running => {
                    task.state = Phase::Cancelled;
                },
                _ => {
                    assert(before.tasks.insert(task_id@, before.tasks[task_id@]) =~= before.tasks);
                    return false;
                },
            }
        } else {
            return false;
        }
        if !self.state.is_terminal() && self.nodes_sealed && self.all_tasks_ended() {
            if self.any_task_failed() {
                let msg = self.collect_failed_summary();
                self.set_failed(msg);
            } else {
                self.state = Phase::Cancelled;
            }
        }
        true
    }

    /// Declares that every task is known, and ends the workflow where nothing is left.
    pub fn seal_nodes(&mut self)
        requires
            old(self)@.succeeded + old(self)@.skipped <= usize::MAX,
        ensures
            final(self)@ == settled(ExecutionView { sealed: true, ..old(self)@ }),
    {
        self.nodes_sealed = true;
        self.check_workflow_completion();
    }

    /// Puts a task that may move on back to pending, as a retry under a new dispatch
    /// generation. Returns whether it did.
    pub fn begin_orchestrated_retry(&mut self, task_id: &TaskId) -> (begun: bool)
        requires
            transition_allowed(old(self)@, task_id@) ==> old(self)@.tasks[task_id@].retry_count
                < u32::MAX && old(self)@.tasks[task_id@].attempt < u32::MAX,
        ensures
            begun == transition_allowed(old(self)@, task_id@),
            final(self)@ == (if begun {
                retry_begun(old(self)@, task_id@)
            } else {
                old(self)@
            }),
    {
        if !self.can_transition_task(task_id) {
            return false;
        }
        if let Some(task) = self.tasks.get_mut(&task_id.0) {
            task.increment_retry_count();
            task.increment_attempt();
            task.state = Phase::Pending;
            task.result = None;
        }
        true
    }
}

impl Terminal for WorkflowExecution {
    open spec fn ended(&self) -> bool {
        self.state.ended()
    }

    fn is_terminal(&self) -> (b: bool) {
        self.state.is_terminal()
    }
}

/// A pending task for each identifier.
pub open spec fn fresh_tasks(ids: Seq<TaskId>) -> Map<Seq<char>, TaskState>
    decreases ids.len(),
{
    if ids.len() == 0 {
        Map::empty()
    } else {
        fresh_tasks(ids.drop_last()).insert(ids.last()@, fresh_task(ids.last()))
    }
}

/// The identifiers without repetitions, in the order of their first occurrence.
pub open spec fn fresh_order(ids: Seq<TaskId>) -> Seq<Seq<char>>
    decreases ids.len(),
{
    if ids.len() == 0 {
        Seq::empty()
    } else {
        let init = fresh_order(ids.drop_last());
        if init.contains(ids.last()@) {
            init
        } else {
            init.push(ids.last()@)
        }
    }
}

/// `fresh_order` lists the keys of `fresh_tasks`.
pub proof fn lemma_fresh_order(ids: Seq<TaskId>)
    ensures
        fresh_tasks(ids).dom().finite(),
        fresh_tasks(ids).dom().len() <= ids.len(),
        forall|k: Seq<char>| #[trigger]
            fresh_order(ids).contains(k) <==> fresh_tasks(ids).contains_key(k),
        forall|k: Seq<char>| #[trigger]
            fresh_tasks(ids).contains_key(k) ==> fresh_tasks(ids)[k].state == Phase::Pending
                && fresh_tasks(ids)[k].task_id@ == k && fresh_tasks(ids)[k] == fresh_task(
                fresh_tasks(ids)[k].task_id,
            ),
        forall|k: Seq<char>| #[trigger]
            fresh_tasks(ids).contains_key(k) <==> exists|i: int|
                0 <= i < ids.len() && #[trigger] ids[i]@ == k,
    decreases ids.len(),
{
    if ids.len() > 0 {
        let init = ids.drop_last();
        let x = ids.last()@;
        lemma_fresh_order(init);
        assert forall|k: Seq<char>| #[trigger] fresh_order(ids).contains(k) <==> fresh_tasks(
            ids,
        ).contains_key(k) by {
            let o = fresh_order(init);
            if !o.contains(x) {
                if o.contains(k) {
                    assert(o.push(x)[o.index_of(k)] == k);
                }
                if k == x {
                    assert(o.push(x)[o.len() as int] == k);
                }
                if o.push(x).contains(k) && k != x {
                    assert(o[o.push(x).index_of(k)] == k);
                }
            }
            assert(o.contains(k) <==> fresh_tasks(init).contains_key(k));
        }
        assert forall|k: Seq<char>| #[trigger] fresh_tasks(ids).contains_key(k) <==> exists|i: int|
            0 <= i < ids.len() && #[trigger] ids[i]@ == k by {
            if fresh_tasks(init).contains_key(k) {
                let i = choose|i: int| 0 <= i < init.len() && #[trigger] init[i]@ == k;
                assert(ids[i]@ == k);
            }
            if k == x {
                assert(ids[ids.len() - 1]@ == k);
            }
            if exists|i: int| 0 <= i < ids.len() && #[trigger] ids[i]@ == k {
                let i = choose|i: int| 0 <= i < ids.len() && #[trigger] ids[i]@ == k;
                if i < init.len() {
                    assert(init[i]@ == k);
                }
            }
        }
    }
}

/// A workflow whose tasks are all known and pending.
pub open spec fn new_execution(workflow_id: Seq<char>, ids: Seq<TaskId>) -> ExecutionView {
    ExecutionView {
        workflow_id,
        state: Phase::Pending,
        tasks: fresh_tasks(ids),
        order: fresh_order(ids),
        succeeded: 0,
        skipped: 0,
        total: ids.len() as int,
        deadline_ms: None,
        started_at_ms: None,
        strategy: FailureStrategy::FailFast,
        error: None,
        sealed: true,
    }
}

/// A workflow whose tasks are still to come.
pub open spec fn open_execution(workflow_id: Seq<char>) -> ExecutionView {
    ExecutionView { sealed: false, ..new_execution(workflow_id, Seq::empty()) }
}

/// The workflow has run past its deadline at `now`.
pub open spec fn expired(v: ExecutionView, now: u64) -> bool {
    v.deadline_ms is Some && v.started_at_ms is Some && now > v.started_at_ms->0
        + v.deadline_ms->0
}

/// `v` with `id` running, where the task exists.
pub open spec fn task_running(v: ExecutionView, id: Seq<char>) -> ExecutionView {
    if v.tasks.contains_key(id) {
        ExecutionView {
            tasks: v.tasks.insert(id, TaskState { state: Phase::Running, ..v.tasks[id] }),
            ..v
        }
    } else {
        v
    }
}

/// `v` with one more task, pending, or `v` itself where it has the task.
pub open spec fn task_registered(v: ExecutionView, task_id: TaskId) -> ExecutionView {
    if v.tasks.contains_key(task_id@) {
        v
    } else {
        ExecutionView {
            tasks: v.tasks.insert(task_id@, fresh_task(task_id)),
            order: v.order.push(task_id@),
            total: v.total + 1,
            ..v
        }
    }
}

/// The task is pending or running.
pub open spec fn cancellable(v: ExecutionView, id: Seq<char>) -> bool {
    v.tasks.contains_key(id) && (v.tasks[id].state == Phase::Pending || v.tasks[id].state
        == Phase::Running)
}

/// `v` with `id` cancelled. With its last open task gone, an open workflow fails where a
/// task failed, and is cancelled where none did.
pub open spec fn task_cancelled(v: ExecutionView, id: Seq<char>) -> ExecutionView {
    let w = ExecutionView {
        tasks: v.tasks.insert(id, TaskState { state: Phase::Cancelled, ..v.tasks[id] }),
        ..v
    };
    if !v.state.ended() && v.sealed && all_ended(w.tasks) {
        if any_failed(w.tasks) {
            ExecutionView {
                state: Phase::Failed,
                error: Some(failed_summary(w.order, w.tasks)),
                ..w
            }
        } else {
            ExecutionView { state: Phase::Cancelled, ..w }
        }
    } else {
        w
    }
}

/// `v` with `id` pending again, as a retry under a new dispatch generation.
pub open spec fn retry_begun(v: ExecutionView, id: Seq<char>) -> ExecutionView {
    ExecutionView { tasks: v.tasks.insert(id, reset_state(v.tasks[id], true, true)), ..v }
}

/// The failed tasks that the summary lists.
pub open spec fn first_entries(ids: Seq<Seq<char>>) -> Seq<Seq<char>> {
    if ids.len() > MAX_FAILED_SUMMARY_ENTRIES {
        ids.take(MAX_FAILED_SUMMARY_ENTRIES as int)
    } else {
        ids
    }
}

/// Strings in strictly ascending order.
pub open spec fn ascending(ids: Seq<String>) -> bool {
    forall|i: int, j: int|
        #![trigger ids[i], ids[j]]
        0 <= i < j < ids.len() ==> text::text_lt(ids[i]@, ids[j]@)
}

} // verus!
