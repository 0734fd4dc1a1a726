//! The actor that owns the orchestrator: every request to it is one command.
use vstd::prelude::*;

use crate::common::{ActantError, TaskId, WorkflowId};
use crate::keymap::KeyMap;
use crate::runtime::workflow::dag::Dag;
use crate::runtime::workflow::execution;
use crate::runtime::workflow::execution::WorkflowExecution;
use crate::runtime::workflow::orchestrator::branches;
use crate::runtime::workflow::orchestrator::drive;
use crate::runtime::workflow::orchestrator::engine;
use crate::runtime::workflow::orchestrator::engine::Orchestrator;
use crate::runtime::workflow::orchestrator::events;
use crate::runtime::workflow::orchestrator::events::{
    push_effect, Effect, EffectView, EventKind, WorkflowEventPayload,
};
use crate::runtime::workflow::orchestrator::lifecycle;
use crate::runtime::workflow::orchestrator::persistence;
use crate::runtime::workflow::orchestrator::recovery;
use crate::runtime::workflow::orchestrator::state;
use crate::runtime::workflow::orchestrator::state::StateView;
use crate::runtime::workflow::orchestrator::timeouts;
use crate::runtime::workflow::phase::{FailureScope, Terminal};
use crate::runtime::workflow::task::TaskDefinition;

verus! {

/// The type name of the actor.
pub const WORKFLOW_ACTOR_TYPE: &'static str = "WorkflowActor";

/// What reporting a task complete is answered with.
#[derive(Debug)]
pub struct TaskCompletionResponse {
    pub workflow_terminal: bool,
    pub ready_successors: Vec<TaskDefinition>,
    pub conditional_edges: Vec<(TaskId, String)>,
}

/// How a task ended.
#[derive(Debug)]
pub enum TaskResultOutcome {
    Completed(Vec<u8>),
    Failed(String),
    Cancelled,
}

/// Where a result came from. It has no bearing on what the result leads to.
#[derive(Debug, Clone, Copy, PartialEq, Eq, Structural)]
pub enum ResultSource {
    /// From this node.
    Local,
    /// From the node that ran the task.
    Remote,
    /// From the exchange of states between nodes.
    Gossip,
}

/// The result is current: it does not come from an older dispatch generation than the
/// task's. Of an unknown workflow every result is.
pub open spec fn current(v: StateView, wf: Seq<char>, id: Seq<char>, attempt: Option<u32>) -> bool {
    v.slots.contains_key(wf) ==> execution::fencing_passes(v.slots[wf].execution, id, attempt)
}

/// What completing a task returns, leaves behind and has done.
pub open spec fn completion_reported(
    before: StateView,
    after: StateView,
    wf: Seq<char>,
    origin: Option<Seq<char>>,
    id: Seq<char>,
    result: Vec<u8>,
    retention: usize,
    r: Result<(Vec<TaskDefinition>, Vec<(TaskId, String)>, bool), ActantError>,
    effects: Seq<Effect>,
) -> bool {
    if !before.slots.contains_key(wf) {
        drive::refused_unknown(before, after, wf, r, effects)
    } else {
        branches::task_done(
            before,
            after,
            wf,
            origin,
            id,
            result,
            retention,
            r,
            events::effect_views(effects),
        )
    }
}

/// What a result leads to: an old one to nothing; a failure to the failure of the workflow
/// as its strategy has it.
pub open spec fn result_outcome(
    before: StateView,
    after: StateView,
    wf: Seq<char>,
    origin: Option<Seq<char>>,
    id: Seq<char>,
    outcome: TaskResultOutcome,
    attempt: Option<u32>,
    retention: usize,
    r: Result<Option<TaskCompletionResponse>, ActantError>,
    effects: Seq<Effect>,
) -> bool {
    if !current(before, wf, id, attempt) {
        r matches Ok(None) && after == before && effects.len() == 0
    } else {
        match outcome {
            TaskResultOutcome::Completed(result) => exists|
                inner: Result<(Vec<TaskDefinition>, Vec<(TaskId, String)>, bool), ActantError>,
            |
                {
                    &&& #[trigger] completion_reported(
                        before,
                        after,
                        wf,
                        origin,
                        id,
                        result,
                        retention,
                        inner,
                        effects,
                    )
                    &&& match inner {
                        Ok(p) => r == Ok::<Option<TaskCompletionResponse>, ActantError>(
                            Some(
                                TaskCompletionResponse {
                                    workflow_terminal: p.2,
                                    ready_successors: p.0,
                                    conditional_edges: p.1,
                                },
                            ),
                        ),
                        Err(e) => r == Err::<Option<TaskCompletionResponse>, ActantError>(e),
                    }
                },
            TaskResultOutcome::Failed(error) => exists|inner: Result<(), ActantError>|
                {
                    &&& #[trigger] drive::fail_outcome(
                        before,
                        after,
                        wf,
                        id,
                        error,
                        FailureScope::WorkflowLevel,
                        inner,
                        effects,
                    )
                    &&& match inner {
                        Ok(()) => r matches Ok(None),
                        Err(e) => r == Err::<Option<TaskCompletionResponse>, ActantError>(e),
                    }
                },
            TaskResultOutcome::Cancelled => exists|inner: Result<bool, ActantError>|
                {
                    &&& #[trigger] drive::cancel_task_outcome(
                        before,
                        after,
                        wf,
                        id,
                        retention,
                        inner,
                        effects,
                    )
                    &&& match inner {
                        Ok(_) => r matches Ok(None),
                        Err(e) => r == Err::<Option<TaskCompletionResponse>, ActantError>(e),
                    }
                },
        }
    }
}

/// Something that the actor is asked to do.
#[allow(inconsistent_fields)]
#[derive(Debug)]
pub enum WorkflowCommand {
    Submit { workflow_id: WorkflowId, dag: Dag },
    SubmitWithTimeout { workflow_id: WorkflowId, dag: Dag, timeout_ms: u64 },
    Start { workflow_id: WorkflowId },
    CompleteTask { workflow_id: WorkflowId, task_id: TaskId, result: Vec<u8> },
    ActivateConditional { workflow_id: WorkflowId, task_id: TaskId },
    SkipConditionalBranch { workflow_id: WorkflowId, task_id: TaskId },
    FailTask { workflow_id: WorkflowId, task_id: TaskId, error: String },
    CancelTask { workflow_id: WorkflowId, task_id: TaskId },
    OnTaskResult {
        workflow_id: WorkflowId,
        task_id: TaskId,
        outcome: TaskResultOutcome,
        attempt: Option<u32>,
        source: ResultSource,
    },
    MarkTaskRunning { workflow_id: WorkflowId, task_id: TaskId },
    TaskDispatched { workflow_id: WorkflowId, task_id: TaskId },
    /// With what this node has stored of the workflow.
    AdoptWorkflow {
        workflow_id: WorkflowId,
        stored: Option<(Dag, Option<WorkflowExecution>)>,
    },
    DeleteWorkflow { workflow_id: WorkflowId },
    RemoveActiveWorkflow { workflow_id: WorkflowId },
    /// With the parts that arrived from another node.
    ApplyFullState {
        workflow_id: WorkflowId,
        dag: Option<Dag>,
        execution: Option<WorkflowExecution>,
        pending: Option<KeyMap<usize>>,
    },
    RescheduleRunningTasks { workflow_id: WorkflowId },
}

/// What a command is answered with.
#[derive(Debug)]
pub enum WorkflowReply {
    Done,
    Tasks(Vec<TaskDefinition>),
    Task(Option<TaskDefinition>),
    Completion(TaskCompletionResponse),
}

/// The graphs and executions that a command brings are in order, and what it is about can
/// be dispatched anew.
pub open spec fn acceptable(v: StateView, c: WorkflowCommand) -> bool {
    match c {
        WorkflowCommand::Submit { dag, .. } => dag.wf(),
        WorkflowCommand::SubmitWithTimeout { dag, .. } => dag.wf(),
        WorkflowCommand::AdoptWorkflow { stored, .. } => stored matches Some(s) ==> s.0.wf(),
        WorkflowCommand::ApplyFullState { dag, execution, .. } => {
            &&& dag matches Some(d) ==> d.wf()
            &&& execution matches Some(x) ==> recovery::recoverable(x@)
        },
        WorkflowCommand::RescheduleRunningTasks { workflow_id } => v.slots.contains_key(
            workflow_id@,
        ) ==> lifecycle::running_attempts_left(v.slots[workflow_id@].execution),
        _ => true,
    }
}

/// The answer where there is nothing to tell.
pub open spec fn acknowledged(
    inner: Result<(), ActantError>,
    r: Result<WorkflowReply, ActantError>,
) -> bool {
    match inner {
        Ok(()) => r matches Ok(WorkflowReply::Done),
        Err(e) => r == Err::<WorkflowReply, ActantError>(e),
    }
}

/// The answer with tasks.
pub open spec fn tasks_told(
    inner: Result<Vec<TaskDefinition>, ActantError>,
    r: Result<WorkflowReply, ActantError>,
) -> bool {
    match inner {
        Ok(tasks) => r == Ok::<WorkflowReply, ActantError>(WorkflowReply::Tasks(tasks)),
        Err(e) => r == Err::<WorkflowReply, ActantError>(e),
    }
}

/// The answer to the report of a result.
pub open spec fn result_told(
    inner: Result<Option<TaskCompletionResponse>, ActantError>,
    detailed: bool,
    r: Result<WorkflowReply, ActantError>,
) -> bool {
    match inner {
        Ok(response) => if !detailed {
            r matches Ok(WorkflowReply::Done)
        } else {
            match response {
                Some(c) => r == Ok::<WorkflowReply, ActantError>(WorkflowReply::Completion(c)),
                None => r matches Ok(WorkflowReply::Completion(c)) && !c.workflow_terminal
                    && c.ready_successors@.len() == 0 && c.conditional_edges@.len() == 0,
            }
        },
        Err(e) => r == Err::<WorkflowReply, ActantError>(e),
    }
}

/// What reporting a result that is answered with nothing but that it was taken leads to.
pub open spec fn reported(
    before: StateView,
    after: StateView,
    wf: Seq<char>,
    origin: Option<Seq<char>>,
    id: Seq<char>,
    outcome: TaskResultOutcome,
    attempt: Option<u32>,
    retention: usize,
    r: Result<WorkflowReply, ActantError>,
    effects: Seq<Effect>,
) -> bool {
    exists|inner: Result<Option<TaskCompletionResponse>, ActantError>|
        #[trigger] result_outcome(
            before,
            after,
            wf,
            origin,
            id,
            outcome,
            attempt,
            retention,
            inner,
            effects,
        ) && result_told(inner, false, r)
}

/// What activating an edge returns and leaves behind.
pub open spec fn activation_reported(
    before: StateView,
    after: StateView,
    wf: Seq<char>,
    origin: Option<Seq<char>>,
    id: Seq<char>,
    inner: Result<Option<TaskDefinition>, ActantError>,
) -> bool {
    if !before.slots.contains_key(wf) {
        &&& after == before
        &&& inner matches Err(e)
        &&& state::not_found(wf, e)
    } else {
        branches::activated(before, after, wf, origin, id, inner)
    }
}

/// What skipping a branch returns, leaves behind and has done.
pub open spec fn skip_reported(
    before: StateView,
    after: StateView,
    wf: Seq<char>,
    origin: Option<Seq<char>>,
    id: Seq<char>,
    retention: usize,
    inner: Result<Vec<TaskDefinition>, ActantError>,
    effects: Seq<Effect>,
) -> bool {
    if !before.slots.contains_key(wf) {
        drive::refused_unknown(before, after, wf, inner, effects)
    } else {
        branches::branch_skipped(
            before,
            after,
            wf,
            origin,
            id,
            retention,
            inner,
            events::effect_views(effects),
        )
    }
}

/// What a command leads to.
pub open spec fn command_outcome(
    before: StateView,
    after: StateView,
    origin: Option<Seq<char>>,
    retention: usize,
    c: WorkflowCommand,
    now: u64,
    r: Result<WorkflowReply, ActantError>,
    effects: Seq<Effect>,
) -> bool {
    match c {
        WorkflowCommand::Submit { workflow_id, dag } => exists|inner: Result<(), ActantError>|
            #[trigger] engine::submit_outcome(before, after, workflow_id@, dag@, inner, effects)
                && acknowledged(inner, r),
        WorkflowCommand::SubmitWithTimeout { workflow_id, dag, timeout_ms } => exists|
            inner: Result<(), ActantError>,
        |
            #[trigger] engine::timed_submit_outcome(
                before,
                after,
                workflow_id@,
                dag@,
                timeout_ms,
                inner,
                effects,
            ) && acknowledged(inner, r),
        WorkflowCommand::Start { workflow_id } => exists|
            inner: Result<Vec<TaskDefinition>, ActantError>,
        |
            #[trigger] drive::start_outcome(
                before,
                after,
                workflow_id@,
                origin,
                now,
                inner,
                effects,
            ) && tasks_told(inner, r),
        WorkflowCommand::CompleteTask { workflow_id, task_id, result } => exists|
            inner: Result<Option<TaskCompletionResponse>, ActantError>,
        |
            #[trigger] result_outcome(
                before,
                after,
                workflow_id@,
                origin,
                task_id@,
                TaskResultOutcome::Completed(result),
                None,
                retention,
                inner,
                effects,
            ) && result_told(inner, true, r),
        WorkflowCommand::ActivateConditional { workflow_id, task_id } => {
            &&& effects.len() == 0
            &&& exists|inner: Result<Option<TaskDefinition>, ActantError>|
                #[trigger] activation_reported(
                    before,
                    after,
                    workflow_id@,
                    origin,
                    task_id@,
                    inner,
                ) && match inner {
                    Ok(t) => r == Ok::<WorkflowReply, ActantError>(WorkflowReply::Task(t)),
                    Err(e) => r == Err::<WorkflowReply, ActantError>(e),
                }
        },
        WorkflowCommand::SkipConditionalBranch { workflow_id, task_id } => exists|
            inner: Result<Vec<TaskDefinition>, ActantError>,
        |
            #[trigger] skip_reported(
                before,
                after,
                workflow_id@,
                origin,
                task_id@,
                retention,
                inner,
                effects,
            ) && tasks_told(inner, r),
        WorkflowCommand::FailTask { workflow_id, task_id, error } => reported(
            before,
            after,
            workflow_id@,
            origin,
            task_id@,
            TaskResultOutcome::Failed(error),
            None,
            retention,
            r,
            effects,
        ),
        WorkflowCommand::CancelTask { workflow_id, task_id } => exists|
            inner: Result<bool, ActantError>,
        |
            #[trigger] drive::cancel_task_outcome(
                before,
                after,
                workflow_id@,
                task_id@,
                retention,
                inner,
                effects,
            ) && match inner {
                Ok(_) => r matches Ok(WorkflowReply::Done),
                Err(e) => r == Err::<WorkflowReply, ActantError>(e),
            },
        WorkflowCommand::OnTaskResult { workflow_id, task_id, outcome, attempt, .. } => reported(
            before,
            after,
            workflow_id@,
            origin,
            task_id@,
            outcome,
            attempt,
            retention,
            r,
            effects,
        ),
        WorkflowCommand::MarkTaskRunning { workflow_id, task_id } => exists|
            inner: Result<(), ActantError>,
        |
            #[trigger] drive::running_outcome(
                before,
                after,
                workflow_id@,
                task_id@,
                inner,
                effects,
            ) && acknowledged(inner, r),
        WorkflowCommand::TaskDispatched { workflow_id, task_id } => {
            &&& r matches Ok(WorkflowReply::Done)
            &&& after == before
            &&& events::effect_views(effects) == seq![
                events::appended(
                    workflow_id@,
                    EventKind::TaskDispatched { task_id: task_id@ },
                ),
            ]
        },
        WorkflowCommand::AdoptWorkflow { workflow_id, stored } => {
            &&& r matches Ok(WorkflowReply::Done)
            &&& persistence::adopt_outcome(before, after, workflow_id@, stored)
            &&& effects.len() == 0
        },
        WorkflowCommand::DeleteWorkflow { workflow_id } => {
            &&& r matches Ok(WorkflowReply::Done)
            &&& after == state::without(before, workflow_id@)
            &&& events::effect_views(effects) == seq![EffectView::Erase(workflow_id@)]
        },
        WorkflowCommand::RemoveActiveWorkflow { workflow_id } => {
            &&& r matches Ok(WorkflowReply::Done)
            &&& after == state::without(before, workflow_id@)
            &&& effects.len() == 0
        },
        WorkflowCommand::ApplyFullState { workflow_id, dag, execution, pending } => {
            &&& r matches Ok(WorkflowReply::Done)
            &&& match dag {
                Some(d) => {
                    &&& after == state::with_slot(
                        before,
                        workflow_id@,
                        persistence::restored(
                            workflow_id@,
                            d@,
                            persistence::execution_view(execution),
                            persistence::pending_view(pending),
                        ),
                    )
                    &&& events::effect_views(effects) == seq![
                        EffectView::PersistWorkflow(workflow_id@),
                    ]
                },
                None => after == before && effects.len() == 0,
            }
        },
        WorkflowCommand::RescheduleRunningTasks { workflow_id } => {
            &&& effects.len() == 0
            &&& exists|inner: Result<Vec<TaskDefinition>, ActantError>|
                #[trigger] timeouts::reschedule_outcome(
                    before,
                    after,
                    workflow_id@,
                    origin,
                    inner,
                ) && tasks_told(inner, r)
        },
    }
}

/// The actor that owns the orchestrator.
pub struct WorkflowActor {
    pub orchestrator: Orchestrator,
}

impl WorkflowActor {
    /// The actor of an orchestrator.
    pub fn new(orchestrator: Orchestrator) -> (a: Self)
        ensures
            a.orchestrator == orchestrator,
    {
        WorkflowActor { orchestrator }
    }

    /// Takes in the result of a task. Everything that reports how a task ended comes
    /// through here: results of older dispatch generations are dropped, and failures count
    /// for the workflow, wherever they come from.
    pub fn on_task_result(
        &mut self,
        workflow_id: &WorkflowId,
        task_id: &TaskId,
        outcome: TaskResultOutcome,
        attempt: Option<u32>,
        source: ResultSource,
    ) -> (r: (Result<Option<TaskCompletionResponse>, ActantError>, Vec<Effect>))
        requires
            old(self).orchestrator.wf(),
        ensures
            final(self).orchestrator.wf(),
            final(self).orchestrator.same_settings(&old(self).orchestrator),
            result_outcome(
                old(self).orchestrator.state@,
                final(self).orchestrator.state@,
                workflow_id@,
                old(self).orchestrator.origin(),
                task_id@,
                outcome,
                attempt,
                old(self).orchestrator.completed_retention_count,
                r.0,
                r.1@,
            ),
    {
        if !self.orchestrator.result_attempt_accepted(workflow_id, task_id, attempt) {
            return (Ok(None), Vec::new());
        }
        match outcome {
            TaskResultOutcome::Completed(result) => {
                let (inner, effects) = self.orchestrator.on_task_completed(
                    workflow_id,
                    task_id,
                    result,
                );
                assert(completion_reported(
                    old(self).orchestrator.state@,
                    self.orchestrator.state@,
                    workflow_id@,
                    old(self).orchestrator.origin(),
                    task_id@,
                    result,
                    old(self).orchestrator.completed_retention_count,
                    inner,
                    effects@,
                ));
                match inner {
                    Ok((ready_successors, conditional_edges, workflow_terminal)) => (
                        Ok(
                            Some(
                                TaskCompletionResponse {
                                    workflow_terminal,
                                    ready_successors,
                                    conditional_edges,
                                },
                            ),
                        ),
                        effects,
                    ),
                    Err(e) => (Err(e), effects),
                }
            },
            TaskResultOutcome::Failed(error) => {
                let (inner, effects) = self.orchestrator.fail_task(
                    workflow_id,
                    task_id,
                    error,
                    FailureScope::WorkflowLevel,
                );
                match inner {
                    Ok(()) => (Ok(None), effects),
                    Err(e) => (Err(e), effects),
                }
            },
            TaskResultOutcome::Cancelled => {
                let (inner, effects) = self.orchestrator.cancel_task(workflow_id, task_id);
                match inner {
                    Ok(_) => (Ok(None), effects),
                    Err(e) => (Err(e), effects),
                }
            },
        }
    }

    /// Answers a report of a result with nothing but that it was taken.
    fn report(
        &mut self,
        workflow_id: &WorkflowId,
        task_id: &TaskId,
        outcome: TaskResultOutcome,
        attempt: Option<u32>,
        source: ResultSource,
    ) -> (r: (Result<WorkflowReply, ActantError>, Vec<Effect>))
        requires
            old(self).orchestrator.wf(),
        ensures
            final(self).orchestrator.wf(),
            final(self).orchestrator.same_settings(&old(self).orchestrator),
            reported(
                old(self).orchestrator.state@,
                final(self).orchestrator.state@,
                workflow_id@,
                old(self).orchestrator.origin(),
                task_id@,
                outcome,
                attempt,
                old(self).orchestrator.completed_retention_count,
                r.0,
                r.1@,
            ),
    {
        let (inner, effects) = self.on_task_result(workflow_id, task_id, outcome, attempt, source);
        match inner {
            Ok(_) => (Ok(WorkflowReply::Done), effects),
            Err(e) => (Err(e), effects),
        }
    }

    /// Does what a command asks at time `now`.
    #[verifier::rlimit(60)]
    pub fn handle_message(&mut self, command: WorkflowCommand, now: u64) -> (r: (
        Result<WorkflowReply, ActantError>,
        Vec<Effect>,
    ))
        requires
            old(self).orchestrator.wf(),
            acceptable(old(self).orchestrator.state@, command),
        ensures
            final(self).orchestrator.wf(),
            final(self).orchestrator.same_settings(&old(self).orchestrator),
            command_outcome(
                old(self).orchestrator.state@,
                final(self).orchestrator.state@,
                old(self).orchestrator.origin(),
                old(self).orchestrator.completed_retention_count,
                command,
                now,
                r.0,
                r.1@,
            ),
    {
        match command {
            WorkflowCommand::Submit { workflow_id, dag } => {
                let (inner, effects) = self.orchestrator.submit(&workflow_id, dag);
                match inner {
                    Ok(()) => (Ok(WorkflowReply::Done), effects),
                    Err(e) => (Err(e), effects),
                }
            },
            WorkflowCommand::SubmitWithTimeout { workflow_id, dag, timeout_ms } => {
                let (inner, effects) = self.orchestrator.submit_with_timeout(
                    &workflow_id,
                    dag,
                    timeout_ms,
                );
                match inner {
                    Ok(()) => (Ok(WorkflowReply::Done), effects),
                    Err(e) => (Err(e), effects),
                }
            },
            WorkflowCommand::Start { workflow_id } => {
                let (inner, effects) = self.orchestrator.start(&workflow_id, now);
                match inner {
                    Ok(tasks) => (Ok(WorkflowReply::Tasks(tasks)), effects),
                    Err(e) => (Err(e), effects),
                }
            },
            WorkflowCommand::CompleteTask { workflow_id, task_id, result } => {
                let (inner, effects) = self.on_task_result(
                    &workflow_id,
                    &task_id,
                    TaskResultOutcome::Completed(result),
                    None,
                    ResultSource::Local,
                );
                match inner {
                    Ok(Some(c)) => (Ok(WorkflowReply::Completion(c)), effects),
                    Ok(None) => (
                        Ok(
                            WorkflowReply::Completion(
                                TaskCompletionResponse {
                                    workflow_terminal: false,
                                    ready_successors: Vec::new(),
                                    conditional_edges: Vec::new(),
                                },
                            ),
                        ),
                        effects,
                    ),
                    Err(e) => (Err(e), effects),
                }
            },
            WorkflowCommand::ActivateConditional { workflow_id, task_id } => {
                let inner = self.orchestrator.activate_conditional_successor(
                    &workflow_id,
                    &task_id,
                );
                assert(activation_reported(
                    old(self).orchestrator.state@,
                    self.orchestrator.state@,
                    workflow_id@,
                    old(self).orchestrator.origin(),
                    task_id@,
                    inner,
                ));
                match inner {
                    Ok(t) => (Ok(WorkflowReply::Task(t)), Vec::new()),
                    Err(e) => (Err(e), Vec::new()),
                }
            },
            WorkflowCommand::SkipConditionalBranch { workflow_id, task_id } => {
                let (inner, effects) = self.orchestrator.skip_conditional_branch(
                    &workflow_id,
                    &task_id,
                );
                assert(skip_reported(
                    old(self).orchestrator.state@,
                    self.orchestrator.state@,
                    workflow_id@,
                    old(self).orchestrator.origin(),
                    task_id@,
                    old(self).orchestrator.completed_retention_count,
                    inner,
                    effects@,
                ));
                match inner {
                    Ok(tasks) => (Ok(WorkflowReply::Tasks(tasks)), effects),
                    Err(e) => (Err(e), effects),
                }
            },
            WorkflowCommand::FailTask { workflow_id, task_id, error } => self.report(
                &workflow_id,
                &task_id,
                TaskResultOutcome::Failed(error),
                None,
                ResultSource::Local,
            ),
            WorkflowCommand::CancelTask { workflow_id, task_id } => {
                let (inner, effects) = self.orchestrator.cancel_task(&workflow_id, &task_id);
                match inner {
                    Ok(_) => (Ok(WorkflowReply::Done), effects),
                    Err(e) => (Err(e), effects),
                }
            },
            WorkflowCommand::OnTaskResult { workflow_id, task_id, outcome, attempt, source } => {
                self.report(&workflow_id, &task_id, outcome, attempt, source)
            },
            WorkflowCommand::MarkTaskRunning { workflow_id, task_id } => {
                let (inner, effects) = self.orchestrator.mark_task_running(
                    &workflow_id,
                    &task_id,
                );
                match inner {
                    Ok(()) => (Ok(WorkflowReply::Done), effects),
                    Err(e) => (Err(e), effects),
                }
            },
            WorkflowCommand::TaskDispatched { workflow_id, task_id } => {
                let mut effects: Vec<Effect> = Vec::new();
                let ghost e = events::appended(
                    workflow_id@,
                    EventKind::TaskDispatched { task_id: task_id@ },
                );
                push_effect(
                    &mut effects,
                    Effect::Append(WorkflowEventPayload::TaskDispatched { workflow_id, task_id }),
                );
                assert(events::effect_views(effects@) =~= seq![e]);
                (Ok(WorkflowReply::Done), effects)
            },
            WorkflowCommand::AdoptWorkflow { workflow_id, stored } => {
                self.orchestrator.adopt_workflow(&workflow_id, stored);
                (Ok(WorkflowReply::Done), Vec::new())
            },
            WorkflowCommand::DeleteWorkflow { workflow_id } => {
                let effects = self.orchestrator.delete_workflow(&workflow_id);
                (Ok(WorkflowReply::Done), effects)
            },
            WorkflowCommand::RemoveActiveWorkflow { workflow_id } => {
                self.orchestrator.remove_active_workflow(&workflow_id);
                (Ok(WorkflowReply::Done), Vec::new())
            },
            WorkflowCommand::ApplyFullState { workflow_id, dag, execution, pending } => {
                let (_restored, effects) = self.orchestrator.restore_workflow_from_parts(
                    &workflow_id,
                    dag,
                    execution,
                    pending,
                );
                (Ok(WorkflowReply::Done), effects)
            },
            WorkflowCommand::RescheduleRunningTasks { workflow_id } => {
                match self.orchestrator.reschedule_running_tasks(&workflow_id) {
                    Ok(tasks) => (Ok(WorkflowReply::Tasks(tasks)), Vec::new()),
                    Err(e) => (Err(e), Vec::new()),
                }
            },
        }
    }
}

/// Something that the actor is asked to tell.
#[derive(Debug)]
pub enum WorkflowQuery {
    GetState { workflow_id: WorkflowId },
    ActiveWorkflowIds,
    GetWorkflowState { workflow_id: WorkflowId },
}

/// What a query is answered with.
pub enum WorkflowAnswer<'a> {
    State(Option<&'a WorkflowExecution>),
    Ids(Vec<WorkflowId>),
    Parts(Option<(&'a Dag, &'a WorkflowExecution, &'a KeyMap<usize>)>),
}

impl WorkflowActor {
    /// Answers a query.
    pub fn answer(&self, query: &WorkflowQuery) -> (a: WorkflowAnswer<'_>)
        requires
            self.orchestrator.wf(),
        ensures
            ({
                let v = self.orchestrator.state@;
                match *query {
                    WorkflowQuery::GetState { workflow_id } => {
                        &&& a matches WorkflowAnswer::State(found)
                        &&& found is Some <==> v.slots.contains_key(workflow_id@)
                        &&& found matches Some(e) ==> e@ == v.slots[workflow_id@].execution
                    },
                    WorkflowQuery::ActiveWorkflowIds => {
                        &&& a matches WorkflowAnswer::Ids(ids)
                        &&& state::workflow_texts(ids@).no_duplicates()
                        &&& forall|k: Seq<char>| #[trigger]
                            state::workflow_texts(ids@).contains(k) <==> v.slots.contains_key(k)
                                && !v.slots[k].execution.state.ended()
                    },
                    WorkflowQuery::GetWorkflowState { workflow_id } => {
                        &&& a matches WorkflowAnswer::Parts(found)
                        &&& found is Some <==> v.slots.contains_key(workflow_id@)
                        &&& found matches Some(p) ==> p.0@ == v.slots[workflow_id@].dag && p.1@
                            == v.slots[workflow_id@].execution && p.2@
                            == v.slots[workflow_id@].pending
                    },
                }
            }),
    {
        match query {
            WorkflowQuery::GetState { workflow_id } => WorkflowAnswer::State(
                self.orchestrator.get_state(workflow_id),
            ),
            WorkflowQuery::ActiveWorkflowIds => WorkflowAnswer::Ids(
                self.orchestrator.active_workflow_ids(),
            ),
            WorkflowQuery::GetWorkflowState { workflow_id } => WorkflowAnswer::Parts(
                self.orchestrator.workflow_parts(workflow_id),
            ),
        }
    }
}

/// A workflow that has ended stands as it does, whatever result is reported as a completion or
/// a failure.
pub proof fn law_ended_workflow_absorbs_results(
    before: StateView,
    after: StateView,
    wf: Seq<char>,
    origin: Option<Seq<char>>,
    id: Seq<char>,
    outcome: TaskResultOutcome,
    attempt: Option<u32>,
    retention: usize,
    r: Result<Option<TaskCompletionResponse>, ActantError>,
    effects: Seq<Effect>,
)
    requires
        before.slots.contains_key(wf),
        before.slots[wf].execution.state.ended(),
        !(outcome is Cancelled),
        result_outcome(
            before,
            after,
            wf,
            origin,
            id,
            outcome,
            attempt,
            retention,
            r,
            effects,
        ),
    ensures
        after.slots.contains_key(wf),
        after.slots[wf].execution == before.slots[wf].execution,
{
}

} // verus!
