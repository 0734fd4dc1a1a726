//! What holds of the commands that the workflow actor takes, over the state before and after,
//! the answer and what is to be done.
use vstd::prelude::*;

use crate::common::{ActantError, TaskId, WorkflowId};
use crate::keymap::KeyMap;
use crate::runtime::workflow::actor::workflow_actor;
use crate::runtime::workflow::actor::workflow_actor::{
    ResultSource, TaskCompletionResponse, TaskResultOutcome, WorkflowCommand, WorkflowReply,
};
use crate::runtime::workflow::dag::Dag;
use crate::runtime::workflow::execution::WorkflowExecution;
use crate::runtime::workflow::execution_laws;
use crate::runtime::workflow::gossip;
use crate::runtime::workflow::orchestrator::drive;
use crate::runtime::workflow::orchestrator::events;
use crate::runtime::workflow::orchestrator::events::{Effect, EffectView, EventKind};
use crate::runtime::workflow::orchestrator::growth_laws;
use crate::runtime::workflow::orchestrator::laws;
use crate::runtime::workflow::orchestrator::persistence;
use crate::runtime::workflow::orchestrator::recovery_laws;
use crate::runtime::workflow::orchestrator::slot::SlotState;
use crate::runtime::workflow::orchestrator::state::StateView;
use crate::runtime::workflow::phase::{FailureScope, FailureStrategy, Phase};
use crate::runtime::workflow::task::TaskDefinition;
use crate::runtime::workflow::wire::{WireDagStateUpdate, WireTaskState};

verus! {

/// A failure that is reported is put on record with its error. Where it concerns the whole
/// workflow and the first failure stops it, the workflow fails, is stored and announced, and
/// stays known. A failure of a task that has ended, or whose workflow has, is on no record and
/// changes no execution.
pub proof fn law_reported_failure(
    before: StateView,
    after: StateView,
    wf: Seq<char>,
    id: Seq<char>,
    error: String,
    scope: FailureScope,
    r: Result<(), ActantError>,
    effects: Seq<Effect>,
)
    requires
        drive::fail_outcome(before, after, wf, id, error, scope, r, effects),
    ensures
        after.slots.remove(wf) == before.slots.remove(wf),
        !before.slots.contains_key(wf) ==> r is Err && after == before && effects.len() == 0,
        before.slots.contains_key(wf) ==> {
            let x = before.slots[wf].execution;
            let y = after.slots[wf].execution;
            let taken = execution_laws::takes_report(x, id, None);
            &&& r is Ok
            &&& after.slots.contains_key(wf)
            &&& after.slots[wf].pending == before.slots[wf].pending
            &&& !taken ==> y == x && effects.len() == 0
            &&& taken ==> {
                &&& y.tasks.contains_key(id)
                &&& y.tasks[id].state == Phase::Failed
                &&& y.tasks[id].error == Some(error)
                &&& y.tasks.remove(id) == x.tasks.remove(id)
                &&& scope == FailureScope::TaskOnly ==> y.state == x.state
                &&& scope != FailureScope::TaskOnly && x.strategy == FailureStrategy::FailFast
                    ==> y.state == Phase::Failed && y.error == Some(error@)
                &&& scope != FailureScope::TaskOnly && x.strategy != FailureStrategy::FailFast && !(
                x.sealed && execution_laws::none_live(y.tasks)) ==> y.state == x.state
                &&& scope != FailureScope::TaskOnly && x.sealed && execution_laws::none_live(
                    y.tasks,
                ) ==> y.state == Phase::Failed
                &&& effects.len() > 0
                &&& events::effect_views(effects)[0] == events::appended(
                    wf,
                    EventKind::TaskFailed { task_id: id, error: error@ },
                )
                &&& execution_laws::live(y.state) ==> effects.len() == 1 && after.dirty.contains(wf)
                &&& !execution_laws::live(y.state) ==> effects.len() == 4 && events::effect_views(
                    effects,
                )[1] == EffectView::PersistExecution(wf) && events::effect_views(effects)[2]
                    == events::appended(
                    wf,
                    EventKind::Failed { error: "workflow failed at task "@ + id },
                ) && events::effect_views(effects)[3] == EffectView::NotifyEnded(wf)
            }
        },
{
    assert(after.slots.remove(wf) =~= before.slots.remove(wf));
    if before.slots.contains_key(wf) {
        execution_laws::law_failure_is_recorded(
            before.slots[wf].execution,
            id,
            error,
            scope,
            None,
        );
    }
    assert(events::effect_views(effects).len() == effects.len());
}

/// A result of an older generation than the task's changes nothing and has nothing done. Of the
/// current one, a completion is recorded as one, a failure fails the task, and a cancellation
/// cancels it, wherever the result comes from.
pub proof fn law_result_does_what_it_says(
    before: StateView,
    after: StateView,
    origin: Option<Seq<char>>,
    retention: usize,
    workflow_id: WorkflowId,
    task_id: TaskId,
    outcome: TaskResultOutcome,
    attempt: Option<u32>,
    source: ResultSource,
    now: u64,
    r: Result<WorkflowReply, ActantError>,
    effects: Seq<Effect>,
)
    requires
        workflow_actor::command_outcome(
            before,
            after,
            origin,
            retention,
            WorkflowCommand::OnTaskResult { workflow_id, task_id, outcome, attempt, source },
            now,
            r,
            effects,
        ),
        before.slots.contains_key(workflow_id@),
        before.slots[workflow_id@].state == SlotState::Ready,
        retention > 0,
    ensures
        ({
            let x = before.slots[workflow_id@].execution;
            let y = after.slots[workflow_id@].execution;
            let id = task_id@;
            let old = attempt is Some && x.tasks.contains_key(id) && attempt->0
                < x.tasks[id].attempt;
            let taken = execution_laws::takes_report(x, id, attempt);
            &&& old ==> after == before && effects.len() == 0 && r is Ok
            &&& r is Ok && taken && outcome is Completed ==> {
                &&& after.slots.contains_key(workflow_id@)
                &&& y.tasks.contains_key(id)
                &&& y.tasks[id].state == Phase::Completed
                &&& effects.len() > 0
                &&& events::effect_views(effects)[0] == events::appended(
                    workflow_id@,
                    EventKind::TaskCompleted { task_id: id, result: outcome->Completed_0@ },
                )
            }
            &&& taken && outcome is Failed ==> {
                &&& r is Ok
                &&& after.slots.contains_key(workflow_id@)
                &&& y.tasks.contains_key(id)
                &&& y.tasks[id].state == Phase::Failed
                &&& y.tasks[id].error == Some(outcome->Failed_0)
                &&& x.strategy == FailureStrategy::FailFast ==> y.state == Phase::Failed
            }
            &&& taken && outcome is Cancelled ==> {
                &&& r is Ok
                &&& after.slots.contains_key(workflow_id@)
                &&& y.tasks.contains_key(id)
                &&& y.tasks[id].state == Phase::Cancelled
            }
            &&& !taken && !(outcome is Cancelled) ==> y == x && effects.len() == 0
            &&& after.slots.remove(workflow_id@) == before.slots.remove(workflow_id@)
            &&& r matches Ok(a) ==> a is Done
        }),
{
    let wf = workflow_id@;
    let id = task_id@;
    let x = before.slots[wf].execution;
    let inner = choose|inner: Result<Option<TaskCompletionResponse>, ActantError>|
        #[trigger] workflow_actor::result_outcome(
            before,
            after,
            wf,
            origin,
            id,
            outcome,
            attempt,
            retention,
            inner,
            effects,
        ) && workflow_actor::result_told(inner, false, r);
    lemma_result(before, after, wf, origin, id, outcome, attempt, retention, inner, effects, id);
}

proof fn lemma_result(
    before: StateView,
    after: StateView,
    wf: Seq<char>,
    origin: Option<Seq<char>>,
    id: Seq<char>,
    outcome: TaskResultOutcome,
    attempt: Option<u32>,
    retention: usize,
    inner: Result<Option<TaskCompletionResponse>, ActantError>,
    effects: Seq<Effect>,
    k: Seq<char>,
)
    requires
        workflow_actor::result_outcome(
            before,
            after,
            wf,
            origin,
            id,
            outcome,
            attempt,
            retention,
            inner,
            effects,
        ),
        before.slots.contains_key(wf),
        before.slots[wf].state == SlotState::Ready,
        retention > 0,
    ensures
        ({
            let x = before.slots[wf].execution;
            let y = after.slots[wf].execution;
            let old = attempt is Some && x.tasks.contains_key(id) && attempt->0
                < x.tasks[id].attempt;
            let taken = execution_laws::takes_report(x, id, attempt);
            &&& old ==> after == before && effects.len() == 0 && inner is Ok
            &&& inner is Ok && taken && outcome is Completed ==> {
                &&& after.slots.contains_key(wf)
                &&& y.tasks.contains_key(id)
                &&& y.tasks[id].state == Phase::Completed
                &&& effects.len() > 0
                &&& events::effect_views(effects)[0] == events::appended(
                    wf,
                    EventKind::TaskCompleted { task_id: id, result: outcome->Completed_0@ },
                )
                &&& inner->Ok_0 matches Some(c)
                &&& c.workflow_terminal <==> !execution_laws::live(y.state)
                &&& c.workflow_terminal ==> c.ready_successors@.len() == 0
                    && c.conditional_edges@.len() == 0
                &&& forall|i: int|
                    #![trigger c.ready_successors@[i]]
                    0 <= i < c.ready_successors@.len() ==> laws::handed_out(
                        after.slots[wf],
                        wf,
                        origin,
                        c.ready_successors@[i]@,
                    )
                &&& !c.workflow_terminal ==> next_told(before, wf, id, c, k)
            }
            &&& taken && outcome is Failed ==> {
                &&& inner is Ok
                &&& after.slots.contains_key(wf)
                &&& y.tasks.contains_key(id)
                &&& y.tasks[id].state == Phase::Failed
                &&& y.tasks[id].error == Some(outcome->Failed_0)
                &&& x.strategy == FailureStrategy::FailFast ==> y.state == Phase::Failed
            }
            &&& taken && outcome is Cancelled ==> {
                &&& inner is Ok
                &&& after.slots.contains_key(wf)
                &&& y.tasks.contains_key(id)
                &&& y.tasks[id].state == Phase::Cancelled
            }
            &&& !taken && !(outcome is Cancelled) ==> y == x && effects.len() == 0
            &&& after.slots.remove(wf) == before.slots.remove(wf)
        }),
{
    let x = before.slots[wf].execution;
    let old = attempt is Some && x.tasks.contains_key(id) && attempt->0 < x.tasks[id].attempt;
    assert(events::effect_views(effects).len() == effects.len());
    if !old {
        match outcome {
            TaskResultOutcome::Completed(result) => {
                let done = choose|
                    done: Result<(Vec<TaskDefinition>, Vec<(TaskId, String)>, bool), ActantError>,
                |
                    {
                        &&& #[trigger] workflow_actor::completion_reported(
                            before,
                            after,
                            wf,
                            origin,
                            id,
                            result,
                            retention,
                            done,
                            effects,
                        )
                        &&& match done {
                            Ok(p) => inner == Ok::<Option<TaskCompletionResponse>, ActantError>(
                                Some(
                                    TaskCompletionResponse {
                                        workflow_terminal: p.2,
                                        ready_successors: p.0,
                                        conditional_edges: p.1,
                                    },
                                ),
                            ),
                            Err(e) => inner == Err::<Option<TaskCompletionResponse>, ActantError>(
                                e,
                            ),
                        }
                    };
                growth_laws::law_completion_hands_out(
                    before,
                    after,
                    wf,
                    origin,
                    id,
                    result,
                    retention,
                    done,
                    events::effect_views(effects),
                );
                if execution_laws::takes_report(x, id, None) && done is Ok && !(done->Ok_0).2 {
                    growth_laws::law_completion_goes_on(
                        before,
                        after,
                        wf,
                        origin,
                        id,
                        result,
                        retention,
                        done,
                        events::effect_views(effects),
                        k,
                    );
                    let p = done->Ok_0;
                    let c = (inner->Ok_0)->0;
                    let b = before.slots[wf];
                    assert(c.ready_successors == p.0 && c.conditional_edges == p.1);
                    assert((exists|i: int|
                        0 <= i < c.conditional_edges@.len() && (
                        #[trigger] c.conditional_edges@[i]).0@ == k) <==> laws::has_condition(
                        b.dag,
                        id,
                        k,
                    ));
                    assert(next_told(before, wf, id, c, k));
                }
                growth_laws::law_completion_is_kept(
                    before,
                    after,
                    wf,
                    origin,
                    id,
                    result,
                    retention,
                    done,
                    events::effect_views(effects),
                );
            },
            TaskResultOutcome::Failed(error) => {
                let done = choose|done: Result<(), ActantError>|
                    {
                        &&& #[trigger] drive::fail_outcome(
                            before,
                            after,
                            wf,
                            id,
                            error,
                            FailureScope::WorkflowLevel,
                            done,
                            effects,
                        )
                        &&& match done {
                            Ok(()) => inner matches Ok(None),
                            Err(e) => inner == Err::<Option<TaskCompletionResponse>, ActantError>(
                                e,
                            ),
                        }
                    };
                law_reported_failure(
                    before,
                    after,
                    wf,
                    id,
                    error,
                    FailureScope::WorkflowLevel,
                    done,
                    effects,
                );
            },
            TaskResultOutcome::Cancelled => {
                let done = choose|done: Result<bool, ActantError>|
                    {
                        &&& #[trigger] drive::cancel_task_outcome(
                            before,
                            after,
                            wf,
                            id,
                            retention,
                            done,
                            effects,
                        )
                        &&& match done {
                            Ok(_) => inner matches Ok(None),
                            Err(e) => inner == Err::<Option<TaskCompletionResponse>, ActantError>(
                                e,
                            ),
                        }
                    };
                laws::law_cancelling_a_task(before, after, wf, id, retention, done, effects);
            },
        }
    }
}

/// The answer tells what comes after `id`: `k` is to run where it waited for nothing else than an
/// edge without a condition from `id`, and to be asked about where there is an edge with one.
pub open spec fn next_told(
    before: StateView,
    wf: Seq<char>,
    id: Seq<char>,
    c: TaskCompletionResponse,
    k: Seq<char>,
) -> bool {
    let b = before.slots[wf];
    let runs = exists|i: int|
        0 <= i < c.ready_successors@.len() && (#[trigger] c.ready_successors@[i])@.id == k;
    let asked = exists|i: int|
        0 <= i < c.conditional_edges@.len() && (#[trigger] c.conditional_edges@[i]).0@ == k;
    &&& asked <==> laws::has_condition(b.dag, id, k)
    &&& forall|e: int|
        b.pending.contains_key(k) && #[trigger] laws::only_edge(b.dag, id, k, e)
            && b.dag.edges[e].condition is None ==> (runs <==> b.pending[k] == 1)
}

/// Completing a task is answered with what it leads to: the tasks to run next, each as its node
/// says, the conditions to decide, and whether the workflow has ended.
pub proof fn law_completion_is_answered(
    before: StateView,
    after: StateView,
    origin: Option<Seq<char>>,
    retention: usize,
    workflow_id: WorkflowId,
    task_id: TaskId,
    result: Vec<u8>,
    now: u64,
    r: Result<WorkflowReply, ActantError>,
    effects: Seq<Effect>,
    k: Seq<char>,
)
    requires
        workflow_actor::command_outcome(
            before,
            after,
            origin,
            retention,
            WorkflowCommand::CompleteTask { workflow_id, task_id, result },
            now,
            r,
            effects,
        ),
        before.slots.contains_key(workflow_id@),
        before.slots[workflow_id@].state == SlotState::Ready,
        retention > 0,
    ensures
        r matches Ok(a) ==> {
            let y = after.slots[workflow_id@].execution;
            let taken = execution_laws::takes_report(
                before.slots[workflow_id@].execution,
                task_id@,
                None,
            );
            &&& a matches WorkflowReply::Completion(c)
            &&& taken ==> {
                &&& y.tasks.contains_key(task_id@)
                &&& y.tasks[task_id@].state == Phase::Completed
                &&& c.workflow_terminal <==> !execution_laws::live(y.state)
                &&& forall|i: int|
                    #![trigger c.ready_successors@[i]]
                    0 <= i < c.ready_successors@.len() ==> laws::handed_out(
                        after.slots[workflow_id@],
                        workflow_id@,
                        origin,
                        c.ready_successors@[i]@,
                    )
                &&& !c.workflow_terminal ==> next_told(before, workflow_id@, task_id@, c, k)
            }
        },
{
    let wf = workflow_id@;
    let outcome = TaskResultOutcome::Completed(result);
    let inner = choose|inner: Result<Option<TaskCompletionResponse>, ActantError>|
        #[trigger] workflow_actor::result_outcome(
            before,
            after,
            wf,
            origin,
            task_id@,
            outcome,
            None,
            retention,
            inner,
            effects,
        ) && workflow_actor::result_told(inner, true, r);
    lemma_result(before, after, wf, origin, task_id@, outcome, None, retention, inner, effects, k);
}

/// A workflow that is deleted is known no more and erased from the store; one that is let go of
/// is known no more and left in the store. No other workflow is touched. That a task was
/// dispatched is put on record and changes nothing.
pub proof fn law_deleted_and_released(
    before: StateView,
    after: StateView,
    origin: Option<Seq<char>>,
    retention: usize,
    c: WorkflowCommand,
    now: u64,
    r: Result<WorkflowReply, ActantError>,
    effects: Seq<Effect>,
    k: Seq<char>,
)
    requires
        workflow_actor::command_outcome(before, after, origin, retention, c, now, r, effects),
    ensures
        c matches WorkflowCommand::DeleteWorkflow { workflow_id } ==> {
            &&& r is Ok
            &&& !after.slots.contains_key(workflow_id@) && !after.waits.contains_key(workflow_id@)
                && !after.signals.contains_key(workflow_id@)
            &&& k != workflow_id@ ==> (after.slots.contains_key(k) <==> before.slots.contains_key(
                k,
            )) && after.slots[k] == before.slots[k]
            &&& effects.len() == 1
            &&& events::effect_views(effects)[0] == EffectView::Erase(workflow_id@)
        },
        c matches WorkflowCommand::RemoveActiveWorkflow { workflow_id } ==> {
            &&& r is Ok
            &&& !after.slots.contains_key(workflow_id@)
            &&& k != workflow_id@ ==> (after.slots.contains_key(k) <==> before.slots.contains_key(
                k,
            )) && after.slots[k] == before.slots[k]
            &&& effects.len() == 0
        },
        c matches WorkflowCommand::TaskDispatched { workflow_id, task_id } ==> {
            &&& r is Ok
            &&& after == before
            &&& effects.len() == 1
            &&& events::effect_views(effects)[0] == events::appended(
                workflow_id@,
                EventKind::TaskDispatched { task_id: task_id@ },
            )
        },
{
    assert(events::effect_views(effects).len() == effects.len());
}

/// A state that another node sends is taken as it is: the workflow goes on from where its
/// execution stood, and is stored. Without the graph nothing changes.
pub proof fn law_full_state_is_taken(
    before: StateView,
    after: StateView,
    origin: Option<Seq<char>>,
    retention: usize,
    workflow_id: WorkflowId,
    dag: Option<Dag>,
    execution: Option<WorkflowExecution>,
    pending: Option<KeyMap<usize>>,
    now: u64,
    r: Result<WorkflowReply, ActantError>,
    effects: Seq<Effect>,
)
    requires
        workflow_actor::command_outcome(
            before,
            after,
            origin,
            retention,
            WorkflowCommand::ApplyFullState { workflow_id, dag, execution, pending },
            now,
            r,
            effects,
        ),
        execution matches Some(x) ==> recovery_laws::can_go_on(x@),
        dag matches Some(d) ==> d@.edges.len() <= usize::MAX,
    ensures
        r is Ok,
        dag is None ==> after == before && effects.len() == 0,
        dag matches Some(d) ==> {
            let s = after.slots[workflow_id@];
            &&& after.slots.contains_key(workflow_id@)
            &&& s.dag == d@
            &&& s.state == SlotState::Ready
            &&& execution matches Some(x) ==> recovery_laws::resumed(x@, s.execution)
            &&& execution is Some && pending is Some ==> s.pending == pending->0@
            &&& effects.len() == 1
            &&& events::effect_views(effects)[0] == EffectView::PersistWorkflow(workflow_id@)
        },
{
    assert(persistence::restore_outcome(
        before,
        after,
        workflow_id@,
        dag,
        execution,
        pending,
        dag is Some,
        effects,
    ));
    recovery_laws::law_restored_workflow(
        before,
        after,
        workflow_id@,
        dag,
        execution,
        pending,
        dag is Some,
        effects,
        Seq::empty(),
    );
}

/// A result of a workflow that is not known here is refused as such, whatever generation it
/// carries, and changes nothing.
pub proof fn law_result_of_an_unknown_workflow(
    before: StateView,
    after: StateView,
    origin: Option<Seq<char>>,
    retention: usize,
    workflow_id: WorkflowId,
    task_id: TaskId,
    outcome: TaskResultOutcome,
    attempt: Option<u32>,
    source: ResultSource,
    now: u64,
    r: Result<WorkflowReply, ActantError>,
    effects: Seq<Effect>,
)
    requires
        workflow_actor::command_outcome(
            before,
            after,
            origin,
            retention,
            WorkflowCommand::OnTaskResult { workflow_id, task_id, outcome, attempt, source },
            now,
            r,
            effects,
        ),
        !before.slots.contains_key(workflow_id@),
    ensures
        r matches Err(e) && e is NotFound,
        after == before,
        effects.len() == 0,
{
}

/// News that is acted on takes effect as it says: a completion is recorded as one, a failure fails
/// the task, a cancellation cancels it, and a task that is said to run does so.
pub proof fn law_news_takes_effect(
    before: StateView,
    after: StateView,
    origin: Option<Seq<char>>,
    retention: usize,
    u: WireDagStateUpdate,
    now: u64,
    r: Result<(), ActantError>,
    effects: Seq<Effect>,
)
    requires
        gossip::acted_on(before, after, origin, retention, u, now, r, effects),
        before.slots.contains_key(u.workflow_id@),
        before.slots[u.workflow_id@].state == SlotState::Ready,
        execution_laws::takes_report(before.slots[u.workflow_id@].execution, u.task_id@, None),
        retention > 0,
    ensures
        ({
            let y = after.slots[u.workflow_id@].execution;
            let id = u.task_id@;
            &&& r is Ok && u.task_state is Completed ==> y.tasks.contains_key(id)
                && y.tasks[id].state == Phase::Completed
            &&& u.task_state matches WireTaskState::Failed { error } ==> {
                &&& r is Ok
                &&& y.tasks.contains_key(id)
                &&& y.tasks[id].state == Phase::Failed
                &&& y.tasks[id].error == Some(error)
            }
            &&& u.task_state is Cancelled ==> r is Ok && y.tasks.contains_key(id)
                && y.tasks[id].state == Phase::Cancelled
            &&& u.task_state is Running ==> r is Ok && y.tasks.contains_key(id)
                && y.tasks[id].state == Phase::Running
        }),
{
    let (c, reply) = choose|c: WorkflowCommand, reply: Result<WorkflowReply, ActantError>|
        {
            &&& #[trigger] gossip::command_for(u, c)
            &&& #[trigger] gossip::settled(reply, r)
            &&& workflow_actor::command_outcome(
                before,
                after,
                origin,
                retention,
                c,
                now,
                reply,
                effects,
            )
        };
    if let WorkflowCommand::OnTaskResult { workflow_id, task_id, outcome, attempt, source } = c {
        law_result_does_what_it_says(
            before,
            after,
            origin,
            retention,
            workflow_id,
            task_id,
            outcome,
            attempt,
            source,
            now,
            reply,
            effects,
        );
    } else {
        execution_laws::law_running_task(before.slots[u.workflow_id@].execution, u.task_id@);
    }
}

} // verus!
