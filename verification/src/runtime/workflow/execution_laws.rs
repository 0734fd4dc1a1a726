//! What holds of workflow executions as a whole.
use vstd::prelude::*;

use crate::common::TaskId;
use crate::runtime::workflow::execution;
use crate::runtime::workflow::execution::{ExecutionView, TaskState};
use crate::runtime::workflow::phase::{FailureScope, FailureStrategy, Phase, Terminal};

verus! {

/// The tasks in phase `p`.
pub open spec fn in_phase(tasks: Map<Seq<char>, TaskState>, p: Phase) -> Set<Seq<char>> {
    tasks.dom().filter(|k: Seq<char>| tasks[k].state == p)
}

/// The counters agree with the tasks.
pub open spec fn counted(v: ExecutionView) -> bool {
    &&& v.tasks.dom().finite()
    &&& v.succeeded == in_phase(v.tasks, Phase::Completed).len()
    &&& v.skipped == in_phase(v.tasks, Phase::Skipped).len()
    &&& v.tasks.dom().len() <= v.total
}

/// Storing a task changes the number of tasks in a phase by at most one.
pub proof fn lemma_in_phase_insert(
    tasks: Map<Seq<char>, TaskState>,
    k: Seq<char>,
    t: TaskState,
    p: Phase,
)
    requires
        tasks.dom().finite(),
    ensures
        in_phase(tasks.insert(k, t), p).len() == in_phase(tasks, p).len() - (if tasks.contains_key(
            k,
        ) && tasks[k].state == p {
            1int
        } else {
            0
        }) + (if t.state == p {
            1int
        } else {
            0
        }),
{
    let before = in_phase(tasks, p);
    let after = in_phase(tasks.insert(k, t), p);
    assert(before.finite());
    if t.state == p {
        assert(after =~= before.insert(k));
    } else {
        assert(after =~= before.remove(k));
    }
}

/// The counters of a new workflow agree with its tasks.
pub proof fn law_counters_agree_new(workflow_id: Seq<char>, ids: Seq<TaskId>)
    ensures
        counted(execution::new_execution(workflow_id, ids)),
        counted(execution::open_execution(workflow_id)),
{
    execution::lemma_fresh_order(ids);
    execution::lemma_fresh_order(Seq::empty());
    let a = execution::fresh_tasks(ids);
    let b = execution::fresh_tasks(Seq::empty());
    assert(in_phase(a, Phase::Completed) =~= Set::empty());
    assert(in_phase(a, Phase::Skipped) =~= Set::empty());
    assert(in_phase(b, Phase::Completed) =~= Set::empty());
    assert(in_phase(b, Phase::Skipped) =~= Set::empty());
}

/// Completed and skipped tasks together are no more than all tasks; a task in another
/// phase leaves room.
pub proof fn lemma_counted_room(v: ExecutionView, id: Seq<char>)
    requires
        counted(v),
    ensures
        v.succeeded + v.skipped <= v.tasks.dom().len(),
        v.tasks.contains_key(id) && v.tasks[id].state != Phase::Completed && v.tasks[id].state
            != Phase::Skipped ==> v.succeeded + v.skipped < v.tasks.dom().len(),
{
    let c = in_phase(v.tasks, Phase::Completed);
    let s = in_phase(v.tasks, Phase::Skipped);
    assert(c.disjoint(s));
    vstd::set_lib::lemma_set_disjoint_lens(c, s);
    assert((c + s).subset_of(v.tasks.dom()));
    vstd::set_lib::lemma_len_subset(c + s, v.tasks.dom());
    if v.tasks.contains_key(id) && v.tasks[id].state != Phase::Completed && v.tasks[id].state
        != Phase::Skipped {
        assert((c + s).subset_of(v.tasks.dom().remove(id)));
        vstd::set_lib::lemma_len_subset(c + s, v.tasks.dom().remove(id));
    }
}

/// Every way in which the tasks of a workflow move keeps the counters in agreement with
/// them: completing, skipping, failing, resetting, registering and retrying a task,
/// starting one that is not completed or skipped, and failing or cancelling the workflow.
pub proof fn law_counters_agree(
    v: ExecutionView,
    id: Seq<char>,
    result: Vec<u8>,
    error: String,
    scope: FailureScope,
    attempt: Option<u32>,
    retry: bool,
    redispatch: bool,
)
    requires
        counted(v),
    ensures
        counted(execution::settled(v)),
        counted(execution::task_completed(v, id, result, attempt)),
        counted(execution::task_skipped(v, id)),
        counted(execution::task_failed(v, id, error, scope, attempt)),
        counted(execution::task_reset(v, id, retry, redispatch)),
        execution::transition_allowed(v, id) ==> counted(execution::retry_begun(v, id)),
        v.tasks.contains_key(id) && v.tasks[id].state != Phase::Completed && v.tasks[id].state
            != Phase::Skipped ==> counted(execution::task_running(v, id)),
        counted(execution::workflow_failed(v, error)),
        counted(execution::workflow_cancelled(v)),
{
    lemma_completed_counted(v, id, result, attempt);
    lemma_skipped_counted(v, id);
    lemma_failed_counted(v, id, error, scope, attempt);
    lemma_reset_counted(v, id, retry, redispatch);
    lemma_ended_counted(v, error);
    let run = TaskState { state: Phase::Running, ..v.tasks[id] };
    lemma_in_phase_insert(v.tasks, id, run, Phase::Completed);
    lemma_in_phase_insert(v.tasks, id, run, Phase::Skipped);
    if v.tasks.contains_key(id) {
        assert(v.tasks.insert(id, run).dom() =~= v.tasks.dom());
    }
}

/// Completing a task keeps the counters in agreement.
pub proof fn lemma_completed_counted(
    v: ExecutionView,
    id: Seq<char>,
    result: Vec<u8>,
    attempt: Option<u32>,
)
    requires
        counted(v),
    ensures
        counted(execution::task_completed(v, id, result, attempt)),
{
    let done = TaskState { state: Phase::Completed, result: Some(result), ..v.tasks[id] };
    lemma_in_phase_insert(v.tasks, id, done, Phase::Completed);
    lemma_in_phase_insert(v.tasks, id, done, Phase::Skipped);
    if v.tasks.contains_key(id) {
        assert(v.tasks.insert(id, done).dom() =~= v.tasks.dom());
    }
}

/// Skipping a task keeps the counters in agreement.
pub proof fn lemma_skipped_counted(v: ExecutionView, id: Seq<char>)
    requires
        counted(v),
    ensures
        counted(execution::task_skipped(v, id)),
{
    let skip = TaskState { state: Phase::Skipped, ..v.tasks[id] };
    lemma_in_phase_insert(v.tasks, id, skip, Phase::Completed);
    lemma_in_phase_insert(v.tasks, id, skip, Phase::Skipped);
    if v.tasks.contains_key(id) {
        assert(v.tasks.insert(id, skip).dom() =~= v.tasks.dom());
    }
}

/// Failing a task keeps the counters in agreement.
pub proof fn lemma_failed_counted(
    v: ExecutionView,
    id: Seq<char>,
    error: String,
    scope: FailureScope,
    attempt: Option<u32>,
)
    requires
        counted(v),
    ensures
        counted(execution::task_failed(v, id, error, scope, attempt)),
{
    let fail = TaskState { state: Phase::Failed, error: Some(error), ..v.tasks[id] };
    lemma_in_phase_insert(v.tasks, id, fail, Phase::Completed);
    lemma_in_phase_insert(v.tasks, id, fail, Phase::Skipped);
    if v.tasks.contains_key(id) {
        assert(v.tasks.insert(id, fail).dom() =~= v.tasks.dom());
    }
}

/// Resetting a task keeps the counters in agreement.
pub proof fn lemma_reset_counted(v: ExecutionView, id: Seq<char>, retry: bool, redispatch: bool)
    requires
        counted(v),
    ensures
        counted(execution::task_reset(v, id, retry, redispatch)),
        execution::transition_allowed(v, id) ==> counted(execution::retry_begun(v, id)),
        v.tasks.contains_key(id) && !v.tasks[id].ended() ==> counted(
            execution::task_running(v, id),
        ),
{
    let t = v.tasks[id];
    let reset = execution::reset_state(t, retry, redispatch);
    let again = execution::reset_state(t, true, true);
    let run = TaskState { state: Phase::Running, ..t };
    lemma_in_phase_insert(v.tasks, id, reset, Phase::Completed);
    lemma_in_phase_insert(v.tasks, id, reset, Phase::Skipped);
    lemma_in_phase_insert(v.tasks, id, again, Phase::Completed);
    lemma_in_phase_insert(v.tasks, id, again, Phase::Skipped);
    lemma_in_phase_insert(v.tasks, id, run, Phase::Completed);
    lemma_in_phase_insert(v.tasks, id, run, Phase::Skipped);
    if v.tasks.contains_key(id) {
        assert(v.tasks.insert(id, reset).dom() =~= v.tasks.dom());
        assert(v.tasks.insert(id, again).dom() =~= v.tasks.dom());
        assert(v.tasks.insert(id, run).dom() =~= v.tasks.dom());
    }
}

/// Cancelling the workflow keeps the counters in agreement.
pub proof fn lemma_cancelled_counted(v: ExecutionView)
    requires
        counted(v),
    ensures
        counted(execution::workflow_cancelled(v)),
{
    let cancelled = execution::workflow_cancelled(v).tasks;
    assert(cancelled.dom() =~= v.tasks.dom());
    assert(in_phase(cancelled, Phase::Completed) =~= in_phase(v.tasks, Phase::Completed));
    assert(in_phase(cancelled, Phase::Skipped) =~= in_phase(v.tasks, Phase::Skipped));
}

/// Failing or cancelling the workflow keeps the counters in agreement.
pub proof fn lemma_ended_counted(v: ExecutionView, error: String)
    requires
        counted(v),
    ensures
        counted(execution::workflow_failed(v, error)),
        counted(execution::workflow_cancelled(v)),
        counted(execution::settled(v)),
{
    lemma_cancelled_counted(v);
    let failed = execution::workflow_failed(v, error).tasks;
    assert(failed.dom() =~= v.tasks.dom());
    assert(in_phase(failed, Phase::Completed) =~= in_phase(v.tasks, Phase::Completed));
    assert(in_phase(failed, Phase::Skipped) =~= in_phase(v.tasks, Phase::Skipped));
}

/// Registering and cancelling a task keep the counters in agreement.
pub proof fn law_counters_agree_registered(v: ExecutionView, task_id: TaskId)
    requires
        counted(v),
    ensures
        counted(execution::task_registered(v, task_id)),
        execution::cancellable(v, task_id@) ==> counted(execution::task_cancelled(v, task_id@)),
{
    let t = execution::fresh_task(task_id);
    lemma_in_phase_insert(v.tasks, task_id@, t, Phase::Completed);
    lemma_in_phase_insert(v.tasks, task_id@, t, Phase::Skipped);
    let c = TaskState { state: Phase::Cancelled, ..v.tasks[task_id@] };
    lemma_in_phase_insert(v.tasks, task_id@, c, Phase::Completed);
    lemma_in_phase_insert(v.tasks, task_id@, c, Phase::Skipped);
    if v.tasks.contains_key(task_id@) {
        assert(v.tasks.insert(task_id@, c).dom() =~= v.tasks.dom());
    }
}

/// A workflow that has ended stays in its state, whatever is reported of its tasks, and
/// reports of completion or failure change nothing at all.
pub proof fn law_ended_workflow_stays(
    v: ExecutionView,
    id: Seq<char>,
    result: Vec<u8>,
    error: String,
    scope: FailureScope,
    attempt: Option<u32>,
)
    requires
        v.state.ended(),
    ensures
        execution::task_completed(v, id, result, attempt) == v,
        execution::task_failed(v, id, error, scope, attempt) == v,
        execution::settled(v) == v,
        execution::task_skipped(v, id).state == v.state,
        execution::task_skipped(v, id).error == v.error,
{
}

/// A task that has ended stays as it is, whatever is reported of it.
pub proof fn law_ended_task_stays(
    v: ExecutionView,
    id: Seq<char>,
    result: Vec<u8>,
    error: String,
    scope: FailureScope,
    attempt: Option<u32>,
)
    requires
        v.tasks.contains_key(id),
        v.tasks[id].ended(),
    ensures
        execution::task_completed(v, id, result, attempt) == v,
        execution::task_failed(v, id, error, scope, attempt) == v,
        execution::task_skipped(v, id) == v,
{
}

/// A duplicate completion report changes nothing.
pub proof fn law_completion_idempotent(
    v: ExecutionView,
    id: Seq<char>,
    result: Vec<u8>,
    again: Vec<u8>,
    attempt: Option<u32>,
)
    requires
        execution::transition_allowed(v, id),
        execution::fencing_passes(v, id, attempt),
    ensures
        ({
            let w = execution::task_completed(v, id, result, attempt);
            execution::task_completed(w, id, again, attempt) == w
        }),
{
}

/// Reports from an older dispatch generation change nothing.
pub proof fn law_stale_reports_dropped(
    v: ExecutionView,
    id: Seq<char>,
    result: Vec<u8>,
    error: String,
    scope: FailureScope,
    attempt: u32,
)
    requires
        v.tasks.contains_key(id),
        attempt < v.tasks[id].attempt,
    ensures
        execution::task_completed(v, id, result, Some(attempt)) == v,
        execution::task_failed(v, id, error, scope, Some(attempt)) == v,
{
}

/// Once a retry has begun, the result of the attempt that it replaces is dropped.
pub proof fn law_retry_fences_old_attempt(v: ExecutionView, id: Seq<char>, result: Vec<u8>)
    requires
        execution::transition_allowed(v, id),
        v.tasks[id].attempt < u32::MAX,
        v.tasks[id].retry_count < u32::MAX,
    ensures
        ({
            let w = execution::retry_begun(v, id);
            execution::task_completed(w, id, result, Some(v.tasks[id].attempt)) == w
        }),
{
}

/// When a workflow that counts each task once completes by a task's completion, every
/// task has ended; where the first failure fails the workflow, each of them completed or
/// was skipped.
pub proof fn law_completed_means_all_done(
    v: ExecutionView,
    id: Seq<char>,
    result: Vec<u8>,
    attempt: Option<u32>,
)
    requires
        counted(v),
        v.total == v.tasks.dom().len(),
        !v.state.ended(),
        execution::task_completed(v, id, result, attempt).state == Phase::Completed,
    ensures
        ({
            let w = execution::task_completed(v, id, result, attempt);
            &&& execution::all_ended(w.tasks)
            &&& v.strategy == FailureStrategy::FailFast ==> forall|k: Seq<char>| #[trigger]
                w.tasks.contains_key(k) ==> w.tasks[k].state == Phase::Completed
                    || w.tasks[k].state == Phase::Skipped
        }),
{
    let t = TaskState { state: Phase::Completed, result: Some(result), ..v.tasks[id] };
    let tasks = v.tasks.insert(id, t);
    lemma_in_phase_insert(v.tasks, id, t, Phase::Completed);
    lemma_in_phase_insert(v.tasks, id, t, Phase::Skipped);
    assert(tasks.dom() =~= v.tasks.dom());
    let c = in_phase(tasks, Phase::Completed);
    let s = in_phase(tasks, Phase::Skipped);
    assert(c.disjoint(s));
    vstd::set_lib::lemma_set_disjoint_lens(c, s);
    if v.succeeded + 1 + v.skipped == v.total {
        assert((c + s).subset_of(tasks.dom()));
        vstd::set_lib::lemma_subset_equality(c + s, tasks.dom());
        assert forall|k: Seq<char>| #[trigger] tasks.contains_key(k) implies tasks[k].state
            == Phase::Completed || tasks[k].state == Phase::Skipped by {
            assert((c + s).contains(k));
        }
    }
}

/// Every task has completed or was skipped.
pub open spec fn all_done(tasks: Map<Seq<char>, TaskState>) -> bool {
    forall|k: Seq<char>| #[trigger]
        tasks.contains_key(k) ==> tasks[k].state == Phase::Completed || tasks[k].state
            == Phase::Skipped
}

/// Where every task has completed or was skipped, the two counts make up all tasks.
proof fn lemma_all_done_count(tasks: Map<Seq<char>, TaskState>)
    requires
        tasks.dom().finite(),
        all_done(tasks),
    ensures
        in_phase(tasks, Phase::Completed).len() + in_phase(tasks, Phase::Skipped).len()
            == tasks.dom().len(),
{
    let c = in_phase(tasks, Phase::Completed);
    let s = in_phase(tasks, Phase::Skipped);
    assert(c.disjoint(s));
    vstd::set_lib::lemma_set_disjoint_lens(c, s);
    assert(c + s =~= tasks.dom());
}

/// Skipping a task that has not ended touches no other task and happens once. When it leaves
/// every task completed or skipped, a workflow that has not ended and whose tasks are all
/// known is completed; one that has ended keeps its state.
pub proof fn law_skipping_completes(v: ExecutionView, id: Seq<char>)
    requires
        counted(v),
        v.total == v.tasks.dom().len(),
        v.tasks.contains_key(id),
        !v.tasks[id].ended(),
    ensures
        ({
            let w = execution::task_skipped(v, id);
            &&& w.tasks == v.tasks.insert(
                id,
                TaskState { state: Phase::Skipped, ..v.tasks[id] },
            )
            &&& execution::task_skipped(w, id) == w
            &&& v.state.ended() ==> w.state == v.state
            &&& v.sealed && !v.state.ended() && all_done(w.tasks) ==> w.state == Phase::Completed
        }),
{
    let t = TaskState { state: Phase::Skipped, ..v.tasks[id] };
    let tasks = v.tasks.insert(id, t);
    lemma_in_phase_insert(v.tasks, id, t, Phase::Completed);
    lemma_in_phase_insert(v.tasks, id, t, Phase::Skipped);
    assert(tasks.dom() =~= v.tasks.dom());
    if all_done(tasks) {
        lemma_all_done_count(tasks);
    }
}

/// When the completion of a task leaves every task completed or skipped, a workflow whose
/// tasks are all known is completed.
pub proof fn law_completion_completes(
    v: ExecutionView,
    id: Seq<char>,
    result: Vec<u8>,
    attempt: Option<u32>,
)
    requires
        counted(v),
        v.total == v.tasks.dom().len(),
        v.sealed,
        execution::transition_allowed(v, id),
        execution::fencing_passes(v, id, attempt),
        all_done(execution::task_completed(v, id, result, attempt).tasks),
    ensures
        execution::task_completed(v, id, result, attempt).state == Phase::Completed,
{
    let t = TaskState { state: Phase::Completed, result: Some(result), ..v.tasks[id] };
    let tasks = v.tasks.insert(id, t);
    lemma_in_phase_insert(v.tasks, id, t, Phase::Completed);
    lemma_in_phase_insert(v.tasks, id, t, Phase::Skipped);
    assert(tasks.dom() =~= v.tasks.dom());
    lemma_all_done_count(tasks);
}

/// Sealing a workflow whose tasks have all completed or been skipped completes it, whatever
/// came before: until then it does not end by itself.
pub proof fn law_sealing_completes(v: ExecutionView)
    requires
        counted(v),
        v.total == v.tasks.dom().len(),
        !v.state.ended(),
        all_done(v.tasks),
    ensures
        execution::settled(ExecutionView { sealed: true, ..v }).state == Phase::Completed,
{
    lemma_all_done_count(v.tasks);
}

/// A workflow whose tasks are not all known does not end with a task, unless the first
/// failure fails it.
pub proof fn law_open_workflow_goes_on(
    v: ExecutionView,
    id: Seq<char>,
    result: Vec<u8>,
    error: String,
    scope: FailureScope,
    attempt: Option<u32>,
)
    requires
        !v.sealed,
    ensures
        execution::task_completed(v, id, result, attempt).state == v.state,
        execution::task_skipped(v, id).state == v.state,
        v.strategy != FailureStrategy::FailFast || scope == FailureScope::TaskOnly
            ==> execution::task_failed(v, id, error, scope, attempt).state == v.state,
{
}

/// The workflow or task has not ended.
pub open spec fn live(p: Phase) -> bool {
    p == Phase::Pending || p == Phase::Running
}

/// A report of generation `attempt` about `id` is to be taken: the workflow and the task have
/// not ended, and the task has not been dispatched anew since.
pub open spec fn takes_report(v: ExecutionView, id: Seq<char>, attempt: Option<u32>) -> bool {
    &&& live(v.state)
    &&& v.tasks.contains_key(id)
    &&& live(v.tasks[id].state)
    &&& attempt matches Some(a) ==> a >= v.tasks[id].attempt
}

/// No task is pending or running.
pub open spec fn none_live(tasks: Map<Seq<char>, TaskState>) -> bool {
    forall|k: Seq<char>| #[trigger] tasks.contains_key(k) ==> !live(tasks[k].state)
}

/// Only the phases before an end are left again: a phase has ended exactly when it is not
/// pending and not running.
pub proof fn law_ends_are_ends(p: Phase)
    ensures
        p.ended() <==> p != Phase::Pending && p != Phase::Running,
{
}

/// A completion that is to be taken is recorded with its result, for that task alone; any
/// other changes nothing.
pub proof fn law_completion_is_recorded(
    v: ExecutionView,
    id: Seq<char>,
    result: Vec<u8>,
    attempt: Option<u32>,
)
    ensures
        ({
            let w = execution::task_completed(v, id, result, attempt);
            &&& !takes_report(v, id, attempt) ==> w == v
            &&& takes_report(v, id, attempt) ==> {
                &&& w.tasks.contains_key(id)
                &&& w.tasks[id].state == Phase::Completed
                &&& w.tasks[id].result == Some(result)
                &&& w.tasks[id].error == v.tasks[id].error
                &&& w.tasks[id].attempt == v.tasks[id].attempt
                &&& w.tasks[id].retry_count == v.tasks[id].retry_count
                &&& w.tasks.remove(id) == v.tasks.remove(id)
                &&& w.succeeded == v.succeeded + 1
            }
            &&& w.skipped == v.skipped
            &&& w.total == v.total
            &&& w.order == v.order
            &&& w.workflow_id == v.workflow_id
            &&& w.deadline_ms == v.deadline_ms
            &&& w.started_at_ms == v.started_at_ms
            &&& w.strategy == v.strategy
            &&& w.sealed == v.sealed
        }),
{
    let w = execution::task_completed(v, id, result, attempt);
    assert(takes_report(v, id, attempt) ==> w.tasks.remove(id) =~= v.tasks.remove(id));
}

/// A failure that is to be taken is recorded with its error, for that task alone; any other
/// changes nothing. Where it concerns the task only, the workflow goes on. Where the first
/// failure stops the workflow, it fails with the error of the task. Where not, it goes on
/// while a task is left or tasks are still to come, and fails with the last one.
pub proof fn law_failure_is_recorded(
    v: ExecutionView,
    id: Seq<char>,
    error: String,
    scope: FailureScope,
    attempt: Option<u32>,
)
    ensures
        ({
            let w = execution::task_failed(v, id, error, scope, attempt);
            &&& !takes_report(v, id, attempt) ==> w == v
            &&& takes_report(v, id, attempt) ==> {
                &&& w.tasks.contains_key(id)
                &&& w.tasks[id].state == Phase::Failed
                &&& w.tasks[id].error == Some(error)
                &&& w.tasks[id].result == v.tasks[id].result
                &&& w.tasks[id].attempt == v.tasks[id].attempt
                &&& w.tasks[id].retry_count == v.tasks[id].retry_count
                &&& w.tasks.remove(id) == v.tasks.remove(id)
                &&& scope == FailureScope::TaskOnly ==> w.state == v.state && w.error == v.error
                &&& scope != FailureScope::TaskOnly ==> {
                    &&& v.strategy == FailureStrategy::FailFast ==> w.state == Phase::Failed
                        && w.error == Some(error@)
                    &&& v.strategy != FailureStrategy::FailFast && v.sealed && none_live(w.tasks)
                        ==> w.state == Phase::Failed && w.error == Some(
                        execution::failed_summary(w.order, w.tasks),
                    )
                    &&& v.strategy != FailureStrategy::FailFast && !(v.sealed && none_live(w.tasks))
                        ==> w.state == v.state && w.error == v.error
                }
            }
            &&& w.succeeded == v.succeeded
            &&& w.skipped == v.skipped
            &&& w.total == v.total
            &&& w.order == v.order
            &&& w.workflow_id == v.workflow_id
            &&& w.deadline_ms == v.deadline_ms
            &&& w.started_at_ms == v.started_at_ms
            &&& w.strategy == v.strategy
            &&& w.sealed == v.sealed
        }),
{
    let w = execution::task_failed(v, id, error, scope, attempt);
    assert(takes_report(v, id, attempt) ==> w.tasks.remove(id) =~= v.tasks.remove(id));
    assert(none_live(w.tasks) <==> execution::all_ended(w.tasks)) by {
        assert forall|k: Seq<char>| w.tasks.contains_key(k) implies (
        #[trigger] w.tasks[k].ended() <==> !live(w.tasks[k].state)) by {}
        if none_live(w.tasks) {
            assert(execution::all_ended(w.tasks));
        }
        if execution::all_ended(w.tasks) {
            assert(none_live(w.tasks));
        }
    }
}

/// What a workflow has come to agrees with its tasks. Completed: every task has ended, and
/// none has failed. Failed with its last task: some task has failed, and its error says so.
pub open spec fn fair_end(w: ExecutionView) -> bool {
    &&& w.state == Phase::Completed ==> forall|k: Seq<char>| #[trigger]
        w.tasks.contains_key(k) ==> !live(w.tasks[k].state) && w.tasks[k].state != Phase::Failed
    &&& w.state == Phase::Failed ==> w.error == Some(execution::failed_summary(w.order, w.tasks))
        && exists|k: Seq<char>| #[trigger]
        w.tasks.contains_key(k) && w.tasks[k].state == Phase::Failed
}

/// Nothing ends the workflow too late: where all tasks are known, have ended and do not stop
/// the workflow by failing, it has ended, failed if any of them failed. Where the first failure
/// stops it, it has completed once all of them are completed or skipped.
pub open spec fn timely_end(w: ExecutionView) -> bool {
    w.sealed ==> {
        &&& w.strategy != FailureStrategy::FailFast && none_live(w.tasks) && (exists|
            k: Seq<char>,
        | #[trigger] w.tasks.contains_key(k) && w.tasks[k].state == Phase::Failed) ==> w.state
            == Phase::Failed
        &&& w.strategy != FailureStrategy::FailFast && none_live(w.tasks) && (forall|
            k: Seq<char>,
        | #[trigger] w.tasks.contains_key(k) ==> w.tasks[k].state != Phase::Failed) ==> w.state
            == Phase::Completed
        &&& w.total == w.tasks.dom().len() && all_done(w.tasks) ==> w.state == Phase::Completed
    }
}

proof fn lemma_settled(v: ExecutionView)
    requires
        counted(v),
        live(v.state),
    ensures
        fair_end(execution::settled(v)),
        timely_end(execution::settled(v)),
{
    let w = execution::settled(v);
    let c = in_phase(v.tasks, Phase::Completed);
    let s = in_phase(v.tasks, Phase::Skipped);
    lemma_counted_room(v, Seq::empty());
    assert(none_live(v.tasks) <==> execution::all_ended(v.tasks)) by {
        assert forall|k: Seq<char>| v.tasks.contains_key(k) implies (
        #[trigger] v.tasks[k].ended() <==> !live(v.tasks[k].state)) by {}
        if none_live(v.tasks) {
            assert(execution::all_ended(v.tasks));
        }
        if execution::all_ended(v.tasks) {
            assert(none_live(v.tasks));
        }
    }
    if v.succeeded + v.skipped == v.total {
        assert(c.disjoint(s));
        vstd::set_lib::lemma_set_disjoint_lens(c, s);
        assert((c + s).subset_of(v.tasks.dom()));
        vstd::set_lib::lemma_subset_equality(c + s, v.tasks.dom());
        assert forall|k: Seq<char>| #[trigger] v.tasks.contains_key(k) implies v.tasks[k].state
            == Phase::Completed || v.tasks[k].state == Phase::Skipped by {
            assert((c + s).contains(k));
        }
    }
    if all_done(v.tasks) {
        lemma_all_done_count(v.tasks);
    }
}

/// No failure is swallowed, and no workflow ends too late or too early: whatever ends a
/// workflow that has not ended, the completion or the skipping of a task or the sealing, it
/// ends as its tasks say.
pub proof fn law_end_agrees_with_tasks(
    v: ExecutionView,
    id: Seq<char>,
    result: Vec<u8>,
    attempt: Option<u32>,
)
    requires
        counted(v),
        live(v.state),
    ensures
        takes_report(v, id, attempt) ==> {
            let w = execution::task_completed(v, id, result, attempt);
            fair_end(w) && timely_end(w)
        },
        v.tasks.contains_key(id) && live(v.tasks[id].state) ==> {
            let w = execution::task_skipped(v, id);
            fair_end(w) && timely_end(w)
        },
        ({
            let w = execution::settled(ExecutionView { sealed: true, ..v });
            fair_end(w) && timely_end(w) && w.tasks == v.tasks && w.sealed
        }),
{
    let t = TaskState { state: Phase::Completed, result: Some(result), ..v.tasks[id] };
    let u = TaskState { state: Phase::Skipped, ..v.tasks[id] };
    lemma_settled(ExecutionView { sealed: true, ..v });
    lemma_in_phase_insert(v.tasks, id, t, Phase::Completed);
    lemma_in_phase_insert(v.tasks, id, t, Phase::Skipped);
    lemma_in_phase_insert(v.tasks, id, u, Phase::Completed);
    lemma_in_phase_insert(v.tasks, id, u, Phase::Skipped);
    if takes_report(v, id, attempt) {
        assert(v.tasks.insert(id, t).dom() =~= v.tasks.dom());
        lemma_settled(
            ExecutionView { tasks: v.tasks.insert(id, t), succeeded: v.succeeded + 1, ..v },
        );
    }
    if v.tasks.contains_key(id) && live(v.tasks[id].state) {
        assert(v.tasks.insert(id, u).dom() =~= v.tasks.dom());
        lemma_settled(
            ExecutionView { tasks: v.tasks.insert(id, u), skipped: v.skipped + 1, ..v },
        );
    }
}

/// A task that has not ended is skipped, for that task alone, and keeps what it had; one that
/// has ended is not.
pub proof fn law_skip_is_recorded(v: ExecutionView, id: Seq<char>)
    requires
        v.tasks.contains_key(id),
    ensures
        ({
            let w = execution::task_skipped(v, id);
            &&& !live(v.tasks[id].state) ==> w == v
            &&& live(v.tasks[id].state) ==> {
                &&& w.tasks.contains_key(id)
                &&& w.tasks[id] == (TaskState { state: Phase::Skipped, ..v.tasks[id] })
                &&& w.tasks.remove(id) == v.tasks.remove(id)
                &&& w.skipped == v.skipped + 1
            }
            &&& w.succeeded == v.succeeded
            &&& w.total == v.total
            &&& w.order == v.order
            &&& w.deadline_ms == v.deadline_ms
            &&& w.started_at_ms == v.started_at_ms
            &&& w.strategy == v.strategy
            &&& w.sealed == v.sealed
        }),
{
    let w = execution::task_skipped(v, id);
    assert(live(v.tasks[id].state) ==> w.tasks.remove(id) =~= v.tasks.remove(id));
}

/// Cancelling an open task touches no other. The workflow ends with it only where all tasks are
/// known and none is left: failed where one has failed, cancelled where none has.
pub proof fn law_cancelled_task(v: ExecutionView, id: Seq<char>)
    requires
        v.tasks.contains_key(id),
    ensures
        execution::cancellable(v, id) <==> live(v.tasks[id].state),
        ({
            let w = execution::task_cancelled(v, id);
            let over = live(v.state) && v.sealed && none_live(w.tasks);
            &&& w.tasks.contains_key(id)
            &&& w.tasks[id] == (TaskState { state: Phase::Cancelled, ..v.tasks[id] })
            &&& w.tasks.remove(id) == v.tasks.remove(id)
            &&& !over ==> w.state == v.state && w.error == v.error
            &&& over && (exists|k: Seq<char>| #[trigger]
                w.tasks.contains_key(k) && w.tasks[k].state == Phase::Failed) ==> w.state
                == Phase::Failed && w.error == Some(execution::failed_summary(w.order, w.tasks))
            &&& over && (forall|k: Seq<char>| #[trigger]
                w.tasks.contains_key(k) ==> w.tasks[k].state != Phase::Failed) ==> w.state
                == Phase::Cancelled
            &&& w.succeeded == v.succeeded
            &&& w.skipped == v.skipped
            &&& w.total == v.total
            &&& w.order == v.order
            &&& w.sealed == v.sealed
        }),
{
    let w = execution::task_cancelled(v, id);
    assert(w.tasks.remove(id) =~= v.tasks.remove(id));
    assert(none_live(w.tasks) <==> execution::all_ended(w.tasks)) by {
        assert forall|k: Seq<char>| w.tasks.contains_key(k) implies (
        #[trigger] w.tasks[k].ended() <==> !live(w.tasks[k].state)) by {}
        if none_live(w.tasks) {
            assert(execution::all_ended(w.tasks));
        }
        if execution::all_ended(w.tasks) {
            assert(none_live(w.tasks));
        }
    }
}

/// A retry and a new dispatch put exactly one task back to pending, without its result, under
/// the next generation. A retry is counted, a new dispatch is not.
pub proof fn law_reset_counts_on(v: ExecutionView, id: Seq<char>)
    requires
        v.tasks.contains_key(id),
        v.tasks[id].attempt < u32::MAX,
        v.tasks[id].retry_count < u32::MAX,
    ensures
        ({
            let w = execution::retry_begun(v, id);
            &&& w == (ExecutionView { tasks: w.tasks, ..v })
            &&& w.tasks.remove(id) == v.tasks.remove(id)
            &&& w.tasks.contains_key(id)
            &&& w.tasks[id].state == Phase::Pending
            &&& w.tasks[id].result is None
            &&& w.tasks[id].retry_count == v.tasks[id].retry_count + 1
            &&& w.tasks[id].attempt == v.tasks[id].attempt + 1
        }),
        ({
            let w = execution::task_reset(v, id, false, true);
            &&& v.tasks[id].state != Phase::Running && v.tasks[id].state != Phase::Failed ==> w
                == v
            &&& v.tasks[id].state == Phase::Running || v.tasks[id].state == Phase::Failed ==> {
                &&& w == (ExecutionView { tasks: w.tasks, ..v })
                &&& w.tasks.remove(id) == v.tasks.remove(id)
                &&& w.tasks.contains_key(id)
                &&& w.tasks[id].state == Phase::Pending
                &&& w.tasks[id].result is None
                &&& w.tasks[id].retry_count == v.tasks[id].retry_count
                &&& w.tasks[id].attempt == v.tasks[id].attempt + 1
            }
        }),
        ({
            let w = execution::task_reset(v, id, true, false);
            &&& v.tasks[id].state != Phase::Failed ==> w == v
            &&& v.tasks[id].state == Phase::Failed ==> {
                &&& w == (ExecutionView { tasks: w.tasks, ..v })
                &&& w.tasks.remove(id) == v.tasks.remove(id)
                &&& w.tasks[id].state == Phase::Pending
                &&& w.tasks[id].retry_count == v.tasks[id].retry_count + 1
                &&& w.tasks[id].attempt == v.tasks[id].attempt
            }
        }),
{
    assert(execution::retry_begun(v, id).tasks.remove(id) =~= v.tasks.remove(id));
    assert(execution::task_reset(v, id, false, true).tasks.remove(id) =~= v.tasks.remove(id));
    assert(execution::task_reset(v, id, true, false).tasks.remove(id) =~= v.tasks.remove(id));
}

/// A workflow that fails or is cancelled as a whole takes its running tasks with it and leaves
/// every other task as it was. A workflow that has ended is not cancelled.
pub proof fn law_end_takes_running_tasks(v: ExecutionView, error: String, k: Seq<char>)
    ensures
        ({
            let w = execution::workflow_failed(v, error);
            &&& w == (ExecutionView {
                state: Phase::Failed,
                error: Some(error@),
                tasks: w.tasks,
                ..v
            })
            &&& w.tasks.dom() == v.tasks.dom()
            &&& v.tasks.contains_key(k) && v.tasks[k].state != Phase::Running ==> w.tasks[k]
                == v.tasks[k]
            &&& v.tasks.contains_key(k) && v.tasks[k].state == Phase::Running ==> w.tasks[k] == (
            TaskState { state: Phase::Failed, error: Some(error), ..v.tasks[k] })
        }),
        ({
            let w = execution::workflow_cancelled(v);
            &&& !live(v.state) ==> w == v
            &&& live(v.state) ==> {
                &&& w == (ExecutionView { state: Phase::Cancelled, tasks: w.tasks, ..v })
                &&& w.tasks.dom() == v.tasks.dom()
                &&& v.tasks.contains_key(k) && v.tasks[k].state != Phase::Running ==> w.tasks[k]
                    == v.tasks[k]
                &&& v.tasks.contains_key(k) && v.tasks[k].state == Phase::Running ==> w.tasks[k]
                    == (TaskState { state: Phase::Cancelled, ..v.tasks[k] })
            }
        }),
{
    assert(execution::workflow_failed(v, error).tasks.dom() =~= v.tasks.dom());
    assert(live(v.state) ==> execution::workflow_cancelled(v).tasks.dom() =~= v.tasks.dom());
}

/// The first start sets the time from which a workflow's deadline counts; later ones do not
/// move it. Starting touches no task.
pub proof fn law_first_start_counts(v: ExecutionView, first: u64, later: u64)
    ensures
        execution::started(v, first).state == Phase::Running,
        v.started_at_ms is None ==> execution::started(v, first).started_at_ms == Some(first),
        v.started_at_ms is Some ==> execution::started(v, first).started_at_ms == v.started_at_ms,
        execution::started(execution::started(v, first), later) == execution::started(v, first),
        execution::started(v, first) == (ExecutionView {
            state: Phase::Running,
            started_at_ms: execution::started(v, first).started_at_ms,
            ..v
        }),
{
}

/// A new workflow has each of its tasks, pending and untried, and no other; it has no deadline
/// and has not started.
pub proof fn law_new_workflow(workflow_id: Seq<char>, ids: Seq<TaskId>, k: Seq<char>)
    ensures
        ({
            let v = execution::new_execution(workflow_id, ids);
            let o = execution::open_execution(workflow_id);
            &&& v.tasks.contains_key(k) <==> exists|i: int|
                0 <= i < ids.len() && (#[trigger] ids[i])@ == k
            &&& v.tasks.contains_key(k) ==> {
                let t = v.tasks[k];
                &&& t.state == Phase::Pending
                &&& t.result is None
                &&& t.error is None
                &&& t.retry_count == 0
                &&& t.attempt == 0
            }
            &&& v.order.no_duplicates()
            &&& v.order.contains(k) <==> v.tasks.contains_key(k)
            &&& v.state == Phase::Pending && o.state == Phase::Pending
            &&& v.sealed && !o.sealed
            &&& v.total == ids.len() && o.total == 0
            &&& v.succeeded == 0 && v.skipped == 0
            &&& v.deadline_ms is None && v.started_at_ms is None && v.error is None
            &&& v.workflow_id == workflow_id && o.workflow_id == workflow_id
            &&& !o.tasks.contains_key(k)
        }),
    decreases ids.len(),
{
    let v = execution::new_execution(workflow_id, ids);
    execution::lemma_fresh_order(ids);
    if ids.len() > 0 {
        let init = ids.drop_last();
        law_new_workflow(workflow_id, init, k);
        if exists|i: int| 0 <= i < init.len() && (#[trigger] init[i])@ == k {
            let i = choose|i: int| 0 <= i < init.len() && (#[trigger] init[i])@ == k;
            assert(ids[i]@ == k);
        }
        if exists|i: int| 0 <= i < ids.len() && (#[trigger] ids[i])@ == k {
            let i = choose|i: int| 0 <= i < ids.len() && (#[trigger] ids[i])@ == k;
            if i < init.len() {
                assert(init[i]@ == k);
            }
        }
        assert(ids[ids.len() - 1] == ids.last());
    }
}

/// A task that is added comes pending and untried, is counted, and touches no other. Adding it
/// again changes nothing.
pub proof fn law_registered_task(v: ExecutionView, task_id: TaskId)
    ensures
        ({
            let w = execution::task_registered(v, task_id);
            &&& v.tasks.contains_key(task_id@) ==> w == v
            &&& !v.tasks.contains_key(task_id@) ==> {
                &&& w.tasks.contains_key(task_id@)
                &&& w.tasks[task_id@].state == Phase::Pending
                &&& w.tasks[task_id@].result is None
                &&& w.tasks[task_id@].retry_count == 0
                &&& w.tasks[task_id@].attempt == 0
                &&& w.tasks.remove(task_id@) == v.tasks.remove(task_id@)
                &&& w.total == v.total + 1
                &&& w.order == v.order.push(task_id@)
                &&& w == (ExecutionView { tasks: w.tasks, order: w.order, total: w.total, ..v })
            }
            &&& execution::task_registered(w, task_id) == w
        }),
{
    let w = execution::task_registered(v, task_id);
    assert(w.tasks.remove(task_id@) =~= v.tasks.remove(task_id@));
}

/// A task that is marked running changes in nothing else, and no other task changes.
pub proof fn law_running_task(v: ExecutionView, id: Seq<char>)
    ensures
        ({
            let w = execution::task_running(v, id);
            &&& !v.tasks.contains_key(id) ==> w == v
            &&& v.tasks.contains_key(id) ==> w.tasks[id] == (TaskState {
                state: Phase::Running,
                ..v.tasks[id]
            })
            &&& w.tasks.remove(id) == v.tasks.remove(id)
            &&& w == (ExecutionView { tasks: w.tasks, ..v })
        }),
{
    let w = execution::task_running(v, id);
    assert(w.tasks.remove(id) =~= v.tasks.remove(id));
    assert(!v.tasks.contains_key(id) ==> w == v);
}

} // verus!
