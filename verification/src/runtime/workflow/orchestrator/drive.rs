//! Driving workflows: sealing, starting, completing, failing and cancelling.
use vstd::prelude::*;
use vstd::string::*;

use crate::common;
use crate::common::{copy_bytes, ActantError, TaskId, WorkflowId};
use crate::runtime::workflow::execution;
use crate::runtime::workflow::execution::ExecutionView;
use crate::runtime::workflow::execution_laws;
use crate::runtime::workflow::orchestrator::engine;
use crate::runtime::workflow::orchestrator::engine::{CompletionInfo, Orchestrator};
use crate::runtime::workflow::orchestrator::events;
use crate::runtime::workflow::orchestrator::events::{
    push_effect, Effect, EffectView, EventKind, WorkflowEventPayload,
};
use crate::runtime::workflow::orchestrator::lifecycle;
use crate::runtime::workflow::orchestrator::lifecycle::FailureVerdict;
use crate::runtime::workflow::orchestrator::progress;
use crate::runtime::workflow::orchestrator::progress::Completion;
use crate::runtime::workflow::orchestrator::skip;
use crate::runtime::workflow::orchestrator::slot;
use crate::runtime::workflow::orchestrator::slot::{SlotState, SlotView};
use crate::runtime::workflow::orchestrator::state;
use crate::runtime::workflow::orchestrator::state::{not_found_error, StateView};
use crate::runtime::workflow::orchestrator::submit;
use crate::runtime::workflow::phase::{FailureScope, Terminal};
use crate::runtime::workflow::task;
use crate::runtime::workflow::task::{copy_node, TaskDefinition};

verus! {

/// Nothing happened, and the error says that `wf` is not known.
pub open spec fn refused_unknown<T>(
    before: StateView,
    after: StateView,
    wf: Seq<char>,
    r: Result<T, ActantError>,
    effects: Seq<Effect>,
) -> bool {
    &&& after == before
    &&& effects.len() == 0
    &&& r matches Err(e)
    &&& state::not_found(wf, e)
}

/// `before` with the slot of `wf` become `s`, which is to be stored.
pub open spec fn moved(before: StateView, wf: Seq<char>, s: SlotView) -> StateView {
    state::with_dirty(state::with_slot(before, wf, s), wf)
}

/// The workflow `wf` has ended as `s`: the state afterwards, and what has to be done.
pub open spec fn ended(
    before: StateView,
    after: StateView,
    wf: Seq<char>,
    s: SlotView,
    completed: Option<Seq<char>>,
    retention: usize,
    effects: Seq<EffectView>,
) -> bool {
    &&& after == engine::after_end(state::with_slot(before, wf, s), wf, retention)
    &&& engine::end_effects(effects, s.execution, wf, completed, retention)
}

impl Orchestrator {
    /// Declares that every task of a workflow is known.
    pub fn seal_workflow(&mut self, workflow_id: &WorkflowId) -> (r: (
        Result<(), ActantError>,
        Vec<Effect>,
    ))
        requires
            old(self).wf(),
        ensures
            final(self).wf(),
            final(self).same_settings(old(self)),
            seal_outcome(
                old(self).state@,
                final(self).state@,
                workflow_id@,
                old(self).completed_retention_count,
                r.0,
                r.1@,
            ),
    {
        let outcome = match self.state.slot_mut(workflow_id) {
            Some(slot) => slot.seal(workflow_id),
            None => {
                return (Err(not_found_error(workflow_id)), Vec::new());
            },
        };
        match outcome {
            Ok(true) => {
                let effects = self.complete_terminal(workflow_id, None);
                (Ok(()), effects)
            },
            Ok(false) => {
                self.state.mark_dirty(workflow_id);
                (Ok(()), Vec::new())
            },
            Err(e) => {
                assert(self.state@.slots =~= old(self).state@.slots);
                (Err(e), Vec::new())
            },
        }
    }

    /// Starts a workflow at time `now`. Returns the tasks that wait for nothing.
    pub fn start(&mut self, workflow_id: &WorkflowId, now: u64) -> (r: (
        Result<Vec<TaskDefinition>, ActantError>,
        Vec<Effect>,
    ))
        requires
            old(self).wf(),
        ensures
            final(self).wf(),
            final(self).same_settings(old(self)),
            start_outcome(
                old(self).state@,
                final(self).state@,
                workflow_id@,
                old(self).origin(),
                now,
                r.0,
                r.1@,
            ),
    {
        let origin = copy_node(&self.node_id);
        let outcome = match self.state.slot_mut(workflow_id) {
            Some(slot) => slot.start(workflow_id, &origin, now),
            None => {
                return (Err(not_found_error(workflow_id)), Vec::new());
            },
        };
        let mut effects: Vec<Effect> = Vec::new();
        match outcome {
            Ok(tasks) => {
                self.state.mark_dirty(workflow_id);
                push_effect(
                    &mut effects,
                    Effect::Append(
                        WorkflowEventPayload::Started { workflow_id: workflow_id.clone() },
                    ),
                );
                assert(events::effect_views(effects@) =~= seq![
                    events::appended(workflow_id@, EventKind::Started),
                ]);
                (Ok(tasks), effects)
            },
            Err(e) => {
                assert(self.state@.slots =~= old(self).state@.slots);
                (Err(e), effects)
            },
        }
    }

    /// Whether a result of attempt `result_attempt` is current. Of an unknown workflow
    /// every result is.
    pub fn result_attempt_accepted(
        &self,
        workflow_id: &WorkflowId,
        task_id: &TaskId,
        result_attempt: Option<u32>,
    ) -> (b: bool)
        requires
            self.wf(),
        ensures
            b == (self.state@.slots.contains_key(workflow_id@) ==> execution::fencing_passes(
                self.state@.slots[workflow_id@].execution,
                task_id@,
                result_attempt,
            )),
    {
        match self.state.slot(workflow_id) {
            Some(slot) => slot.execution.attempt_fencing_passes(task_id, result_attempt),
            None => true,
        }
    }

    /// Completes a task with `result`.
    pub fn complete_task(
        &mut self,
        workflow_id: &WorkflowId,
        task_id: &TaskId,
        result: Vec<u8>,
        result_attempt: Option<u32>,
    ) -> (r: (Result<CompletionInfo, ActantError>, Vec<Effect>))
        requires
            old(self).wf(),
        ensures
            final(self).wf(),
            final(self).same_settings(old(self)),
            ({
                let before = old(self).state@;
                let after = final(self).state@;
                let wf = workflow_id@;
                if !before.slots.contains_key(wf) {
                    refused_unknown(before, after, wf, r.0, r.1@)
                } else {
                    completed(
                        before,
                        after,
                        wf,
                        task_id@,
                        result,
                        result_attempt,
                        old(self).completed_retention_count,
                        r.0,
                        events::effect_views(r.1@),
                    )
                }
            }),
    {
        let ghost before = self.state@;
        let ghost wf = workflow_id@;
        let recorded = copy_bytes(&result);
        let mut accepted = false;
        let outcome = match self.state.slot_mut(workflow_id) {
            Some(slot) => {
                accepted = slot.state != SlotState::Loading && slot.execution.can_transition_task(
                    task_id,
                ) && slot.execution.attempt_fencing_passes(task_id, result_attempt);
                slot.complete_task(workflow_id, task_id, result, result_attempt)
            },
            None => {
                return (Err(not_found_error(workflow_id)), Vec::new());
            },
        };
        let ghost s = self.state@.slots[wf];
        assert(progress::completion_outcome(
            before.slots[wf],
            s,
            wf,
            task_id@,
            result,
            result_attempt,
            outcome,
        ));
        let mut effects: Vec<Effect> = Vec::new();
        if accepted {
            push_effect(
                &mut effects,
                Effect::Append(
                    WorkflowEventPayload::TaskCompleted {
                        workflow_id: workflow_id.clone(),
                        task_id: task_id.clone(),
                        result: recorded,
                    },
                ),
            );
        }
        let ghost head = completion_events(accepted, wf, task_id@, result@);
        assert(events::effect_views(effects@) =~= head);
        match outcome {
            Ok(Completion::Ignored) => {
                assert(self.state@.slots =~= before.slots);
                (
                    Ok(
                        CompletionInfo {
                            workflow_terminal: false,
                            ready_successors: Vec::new(),
                            conditional_edges: Vec::new(),
                        },
                    ),
                    effects,
                )
            },
            Ok(Completion::Ended) => {
                let mut more = self.complete_terminal(workflow_id, Some(task_id));
                let ghost tail = events::effect_views(more@);
                let ghost more0 = more@;
                let ghost effects0 = effects@;
                effects.append(&mut more);
                proof {
                    assert(effects@ =~= effects0 + more0);
                    assert(events::effect_views(effects@) =~= head + tail);
                    assert(events::effect_views(effects@).skip(1) =~= tail);
                }
                (
                    Ok(
                        CompletionInfo {
                            workflow_terminal: true,
                            ready_successors: Vec::new(),
                            conditional_edges: Vec::new(),
                        },
                    ),
                    effects,
                )
            },
            Ok(Completion::Progress(p)) => {
                self.state.mark_dirty(workflow_id);
                (
                    Ok(
                        CompletionInfo {
                            workflow_terminal: false,
                            ready_successors: p.ready,
                            conditional_edges: p.conditional,
                        },
                    ),
                    effects,
                )
            },
            Err(e) => {
                assert(!accepted ==> self.state@.slots =~= before.slots);
                (Err(e), effects)
            },
        }
    }

    /// Fails a task for the workflow as `mode` says.
    pub fn fail_task(
        &mut self,
        workflow_id: &WorkflowId,
        task_id: &TaskId,
        error: String,
        mode: FailureScope,
    ) -> (r: (Result<(), ActantError>, Vec<Effect>))
        requires
            old(self).wf(),
        ensures
            final(self).wf(),
            final(self).same_settings(old(self)),
            fail_outcome(
                old(self).state@,
                final(self).state@,
                workflow_id@,
                task_id@,
                error,
                mode,
                r.0,
                r.1@,
            ),
    {
        let ghost before = self.state@;
        let ghost wf = workflow_id@;
        let recorded = error.clone();
        let (accepted, over) = match self.state.slot_mut(workflow_id) {
            Some(slot) => slot.fail_task(task_id, error, mode),
            None => {
                return (Err(not_found_error(workflow_id)), Vec::new());
            },
        };
        let mut effects: Vec<Effect> = Vec::new();
        if accepted {
            push_effect(
                &mut effects,
                Effect::Append(
                    WorkflowEventPayload::TaskFailed {
                        workflow_id: workflow_id.clone(),
                        task_id: task_id.clone(),
                        error: recorded,
                    },
                ),
            );
        }
        if over {
            push_effect(&mut effects, Effect::PersistExecution(workflow_id.clone()));
            let mut m = "workflow failed at task ".to_owned();
            m.append(task_id.0.as_str());
            push_effect(
                &mut effects,
                Effect::Append(
                    WorkflowEventPayload::Failed { workflow_id: workflow_id.clone(), error: m },
                ),
            );
            push_effect(&mut effects, Effect::NotifyEnded(workflow_id.clone()));
        } else {
            self.state.mark_dirty(workflow_id);
        }
        proof {
            assert(events::effect_views(effects@) =~= failure_effects(
                wf,
                task_id@,
                error@,
                accepted,
                over,
            ));
        }
        (Ok(()), effects)
    }

    /// Decides what the failure of a task leads to, and does it. A retry is returned with
    /// its delay; `None` means that the failure is final or was ignored.
    pub fn handle_task_failure(
        &mut self,
        workflow_id: &WorkflowId,
        task_id: &TaskId,
        error: String,
    ) -> (r: (Result<Option<(TaskDefinition, u64)>, ActantError>, Vec<Effect>))
        requires
            old(self).wf(),
            old(self).state@.slots.contains_key(workflow_id@) ==> lifecycle::attempt_left(
                old(self).state@.slots[workflow_id@].execution,
                task_id@,
            ),
        ensures
            final(self).wf(),
            final(self).same_settings(old(self)),
            failure_handled(
                old(self).state@,
                final(self).state@,
                workflow_id@,
                old(self).origin(),
                task_id@,
                error,
                r.0,
                r.1@,
            ),
    {
        let origin = copy_node(&self.node_id);
        let ghost before = self.state@;
        let verdict = match self.state.slot(workflow_id) {
            Some(slot) => slot.failure_verdict(task_id),
            None => {
                return (Err(not_found_error(workflow_id)), Vec::new());
            },
        };
        match verdict {
            FailureVerdict::Ignore => (Ok(None), Vec::new()),
            FailureVerdict::Retry { delay_ms } => {
                let mut task: Option<TaskDefinition> = None;
                if let Some(slot) = self.state.slot_mut(workflow_id) {
                    slot.begin_retry(task_id);
                    task = slot.build_task(workflow_id, &origin, task_id);
                }
                self.state.mark_dirty(workflow_id);
                match task {
                    Some(t) => (Ok(Some((t, delay_ms))), Vec::new()),
                    None => (Ok(None), Vec::new()),
                }
            },
            FailureVerdict::Fail => {
                let (_, effects) = self.fail_task(
                    workflow_id,
                    task_id,
                    error,
                    FailureScope::WorkflowLevel,
                );
                (Ok(None), effects)
            },
        }
    }

    /// Cancels a workflow. One that has ended stays as it is.
    pub fn cancel(&mut self, workflow_id: &WorkflowId) -> (r: (
        Result<(), ActantError>,
        Vec<Effect>,
    ))
        requires
            old(self).wf(),
        ensures
            final(self).wf(),
            final(self).same_settings(old(self)),
            cancel_outcome(
                old(self).state@,
                final(self).state@,
                workflow_id@,
                old(self).completed_retention_count,
                r.0,
                r.1@,
            ),
    {
        let cancelled = match self.state.slot_mut(workflow_id) {
            Some(slot) => slot.cancel(),
            None => {
                return (Err(not_found_error(workflow_id)), Vec::new());
            },
        };
        if cancelled {
            let effects = self.complete_terminal(workflow_id, None);
            (Ok(()), effects)
        } else {
            assert(self.state@.slots =~= old(self).state@.slots);
            (Ok(()), Vec::new())
        }
    }

    /// Cancels one task. Returns whether it was open.
    pub fn cancel_task(&mut self, workflow_id: &WorkflowId, task_id: &TaskId) -> (r: (
        Result<bool, ActantError>,
        Vec<Effect>,
    ))
        requires
            old(self).wf(),
        ensures
            final(self).wf(),
            final(self).same_settings(old(self)),
            cancel_task_outcome(
                old(self).state@,
                final(self).state@,
                workflow_id@,
                task_id@,
                old(self).completed_retention_count,
                r.0,
                r.1@,
            ),
    {
        let (cancelled, over) = match self.state.slot_mut(workflow_id) {
            Some(slot) => slot.cancel_task(task_id),
            None => {
                return (Err(not_found_error(workflow_id)), Vec::new());
            },
        };
        let mut effects: Vec<Effect> = Vec::new();
        if !cancelled {
            assert(self.state@.slots =~= old(self).state@.slots);
            return (Ok(false), effects);
        }
        push_effect(
            &mut effects,
            Effect::Append(
                WorkflowEventPayload::TaskCancelled {
                    workflow_id: workflow_id.clone(),
                    task_id: task_id.clone(),
                },
            ),
        );
        let ghost head = seq![
            events::appended(workflow_id@, EventKind::TaskCancelled { task_id: task_id@ }),
        ];
        assert(events::effect_views(effects@) =~= head);
        if over {
            let mut more = self.complete_terminal(workflow_id, Some(task_id));
            let ghost tail = events::effect_views(more@);
            let ghost more0 = more@;
            let ghost effects0 = effects@;
            effects.append(&mut more);
            proof {
                assert(effects@ =~= effects0 + more0);
                assert(events::effect_views(effects@) =~= head + tail);
                assert(events::effect_views(effects@).skip(1) =~= tail);
            }
        } else {
            self.state.mark_dirty(workflow_id);
        }
        (Ok(true), effects)
    }

    /// Fails a workflow as a whole.
    pub fn mark_workflow_failed(&mut self, workflow_id: &WorkflowId, error: String) -> (r: (
        Result<(), ActantError>,
        Vec<Effect>,
    ))
        requires
            old(self).wf(),
        ensures
            final(self).wf(),
            final(self).same_settings(old(self)),
            ({
                let before = old(self).state@;
                let after = final(self).state@;
                let wf = workflow_id@;
                let s = before.slots[wf];
                if !before.slots.contains_key(wf) {
                    refused_unknown(before, after, wf, r.0, r.1@)
                } else {
                    &&& r.0 is Ok
                    &&& after == state::with_slot(
                        before,
                        wf,
                        SlotView { execution: execution::workflow_failed(s.execution, error), ..s },
                    )
                    &&& events::effect_views(r.1@) == seq![
                        EffectView::PersistExecution(wf),
                        EffectView::NotifyEnded(wf),
                    ]
                }
            }),
    {
        match self.state.slot_mut(workflow_id) {
            Some(slot) => {
                proof {
                    execution_laws::lemma_ended_counted(slot.execution@, error);
                }
                slot.execution.mark_workflow_failed(error);
            },
            None => {
                return (Err(not_found_error(workflow_id)), Vec::new());
            },
        }
        let mut effects: Vec<Effect> = Vec::new();
        push_effect(&mut effects, Effect::PersistExecution(workflow_id.clone()));
        push_effect(&mut effects, Effect::NotifyEnded(workflow_id.clone()));
        assert(events::effect_views(effects@) =~= seq![
            EffectView::PersistExecution(workflow_id@),
            EffectView::NotifyEnded(workflow_id@),
        ]);
        (Ok(()), effects)
    }

    /// Marks a task running, unless it or its workflow has ended.
    pub fn mark_task_running(&mut self, workflow_id: &WorkflowId, task_id: &TaskId) -> (r: (
        Result<(), ActantError>,
        Vec<Effect>,
    ))
        requires
            old(self).wf(),
        ensures
            final(self).wf(),
            final(self).same_settings(old(self)),
            running_outcome(
                old(self).state@,
                final(self).state@,
                workflow_id@,
                task_id@,
                r.0,
                r.1@,
            ),
    {
        let marked = match self.state.slot_mut(workflow_id) {
            Some(slot) => slot.mark_task_running(task_id),
            None => {
                return (Err(not_found_error(workflow_id)), Vec::new());
            },
        };
        let mut effects: Vec<Effect> = Vec::new();
        if marked {
            push_effect(
                &mut effects,
                Effect::Append(
                    WorkflowEventPayload::TaskRunning {
                        workflow_id: workflow_id.clone(),
                        task_id: task_id.clone(),
                    },
                ),
            );
            assert(events::effect_views(effects@) =~= seq![
                events::appended(workflow_id@, EventKind::TaskRunning { task_id: task_id@ }),
            ]);
        } else {
            assert(self.state@.slots =~= old(self).state@.slots);
        }
        (Ok(()), effects)
    }

    /// Dispatches a task anew, where it is running or failed.
    pub fn mark_task_pending(&mut self, workflow_id: &WorkflowId, task_id: &TaskId) -> (r: Result<
        (),
        ActantError,
    >)
        requires
            old(self).wf(),
            old(self).state@.slots.contains_key(workflow_id@) ==> lifecycle::attempt_left(
                old(self).state@.slots[workflow_id@].execution,
                task_id@,
            ),
        ensures
            final(self).wf(),
            final(self).same_settings(old(self)),
            pending_outcome(old(self).state@, final(self).state@, workflow_id@, task_id@, r),
    {
        match self.state.slot_mut(workflow_id) {
            Some(slot) => {
                slot.mark_task_pending(task_id);
                Ok(())
            },
            None => Err(not_found_error(workflow_id)),
        }
    }

    /// A task as it is handed to a scheduler, where the workflow has it.
    pub fn build_task_for_id(&self, workflow_id: &WorkflowId, task_id: &TaskId) -> (r: Option<
        TaskDefinition,
    >)
        requires
            self.wf(),
        ensures
            match r {
                Some(t) => self.state@.slots.contains_key(workflow_id@)
                    && self.state@.slots[workflow_id@].dag.nodes.contains_key(task_id@) && t@
                    == slot::task_for(
                    self.state@.slots[workflow_id@],
                    workflow_id@,
                    self.origin(),
                    task_id@,
                ),
                None => !self.state@.slots.contains_key(workflow_id@)
                    || !self.state@.slots[workflow_id@].dag.nodes.contains_key(task_id@),
            },
    {
        match self.state.slot(workflow_id) {
            Some(slot) => slot.build_task(workflow_id, &self.node_id, task_id),
            None => None,
        }
    }

    /// Tasks as they are handed to a scheduler.
    pub fn build_ready_tasks_for(&self, workflow_id: &WorkflowId, task_ids: &Vec<TaskId>) -> (r:
        Result<Vec<TaskDefinition>, ActantError>)
        requires
            self.wf(),
        ensures
            if self.state@.slots.contains_key(workflow_id@) {
                slot::tasks_built(
                    self.state@.slots[workflow_id@],
                    workflow_id@,
                    self.origin(),
                    common::task_texts(task_ids@),
                    r,
                )
            } else {
                r matches Err(e) && state::not_found(workflow_id@, e)
            },
    {
        match self.state.slot(workflow_id) {
            Some(slot) => slot.build_ready_tasks(workflow_id, &self.node_id, task_ids),
            None => Err(not_found_error(workflow_id)),
        }
    }
}

/// The event for a completion that was accepted.
pub open spec fn completion_events(
    accepted: bool,
    wf: Seq<char>,
    id: Seq<char>,
    result: Seq<u8>,
) -> Seq<EffectView> {
    if accepted {
        seq![events::appended(wf, EventKind::TaskCompleted { task_id: id, result })]
    } else {
        Seq::empty()
    }
}

/// What completing the task `id` of a known workflow returns, leaves behind and has done.
pub open spec fn completed(
    before: StateView,
    after: StateView,
    wf: Seq<char>,
    id: Seq<char>,
    result: Vec<u8>,
    attempt: Option<u32>,
    retention: usize,
    r: Result<CompletionInfo, ActantError>,
    effects: Seq<EffectView>,
) -> bool {
    exists|s: SlotView, inner: Result<Completion, ActantError>|
        {
            let accepted = before.slots[wf].state != SlotState::Loading
                && execution::transition_allowed(before.slots[wf].execution, id)
                && execution::fencing_passes(before.slots[wf].execution, id, attempt);
            let head = completion_events(accepted, wf, id, result@);
            &&& #[trigger] progress::completion_outcome(
                before.slots[wf],
                s,
                wf,
                id,
                result,
                attempt,
                inner,
            )
            &&& match inner {
                Ok(Completion::Ignored) => {
                    &&& after == before
                    &&& effects.len() == 0
                    &&& r matches Ok(info)
                    &&& !info.workflow_terminal
                    &&& info.ready_successors@.len() == 0
                    &&& info.conditional_edges@.len() == 0
                },
                Ok(Completion::Ended) => {
                    &&& effects.len() > 0
                    &&& effects[0] == head[0]
                    &&& ended(before, after, wf, s, Some(id), retention, effects.skip(1))
                    &&& r matches Ok(info)
                    &&& info.workflow_terminal
                    &&& info.ready_successors@.len() == 0
                    &&& info.conditional_edges@.len() == 0
                },
                Ok(Completion::Progress(p)) => {
                    &&& after == moved(before, wf, s)
                    &&& effects == head
                    &&& r == Ok::<CompletionInfo, ActantError>(
                        CompletionInfo {
                            workflow_terminal: false,
                            ready_successors: p.ready,
                            conditional_edges: p.conditional,
                        },
                    )
                },
                Err(e) => {
                    &&& after == state::with_slot(before, wf, s)
                    &&& effects == head
                    &&& r == Err::<CompletionInfo, ActantError>(e)
                },
            }
        }
}

/// What has to be done for a failed task.
pub open spec fn failure_effects(
    wf: Seq<char>,
    id: Seq<char>,
    error: Seq<char>,
    accepted: bool,
    over: bool,
) -> Seq<EffectView> {
    let head = if accepted {
        seq![events::appended(wf, EventKind::TaskFailed { task_id: id, error })]
    } else {
        Seq::empty()
    };
    if over {
        head + seq![
            EffectView::PersistExecution(wf),
            events::appended(wf, EventKind::Failed { error: "workflow failed at task "@ + id }),
            EffectView::NotifyEnded(wf),
        ]
    } else {
        head
    }
}

/// What failing the task `id` of a known workflow leaves behind and has done.
pub open spec fn failed(
    before: StateView,
    after: StateView,
    wf: Seq<char>,
    id: Seq<char>,
    error: String,
    mode: FailureScope,
    effects: Seq<EffectView>,
) -> bool {
    let s = before.slots[wf];
    let accepted = execution::transition_allowed(s.execution, id);
    let f = SlotView {
        execution: execution::task_failed(s.execution, id, error, mode, None),
        ..s
    };
    let over = accepted && f.execution.state.ended();
    &&& effects == failure_effects(wf, id, error@, accepted, over)
    &&& after == if over {
        state::with_slot(before, wf, f)
    } else {
        moved(before, wf, f)
    }
}

/// What sealing a workflow returns, leaves behind and has done.
pub open spec fn seal_outcome(
    before: StateView,
    after: StateView,
    wf: Seq<char>,
    retention: usize,
    r: Result<(), ActantError>,
    effects: Seq<Effect>,
) -> bool {
    let s = before.slots[wf];
    let sealed = SlotView {
        execution: execution::settled(ExecutionView { sealed: true, ..s.execution }),
        ..s
    };
    if !before.slots.contains_key(wf) {
        refused_unknown(before, after, wf, r, effects)
    } else if s.state == SlotState::Loading {
        &&& after == before
        &&& effects.len() == 0
        &&& r matches Err(ActantError::InvalidState(m))
        &&& m@ == submit::about_workflow(wf, " is still loading (placeholder), cannot seal"@)
    } else {
        &&& r is Ok
        &&& if !s.execution.state.ended() && sealed.execution.state.ended() {
            ended(
                before,
                after,
                wf,
                sealed,
                None,
                retention,
                events::effect_views(effects),
            )
        } else {
            after == moved(before, wf, sealed) && effects.len() == 0
        }
    }
}

/// What the report of a failed task leads to: what is returned, left behind and done.
pub open spec fn failure_handled(
    before: StateView,
    after: StateView,
    wf: Seq<char>,
    origin: Option<Seq<char>>,
    id: Seq<char>,
    error: String,
    r: Result<Option<(TaskDefinition, u64)>, ActantError>,
    effects: Seq<Effect>,
) -> bool {
    let s = before.slots[wf];
    if !before.slots.contains_key(wf) {
        refused_unknown(before, after, wf, r, effects)
    } else {
        match lifecycle::verdict(s, id) {
            FailureVerdict::Ignore => {
                &&& r matches Ok(None)
                &&& after == before
                &&& effects.len() == 0
            },
            FailureVerdict::Retry { delay_ms } => {
                &&& after == moved(before, wf, lifecycle::retried(s, id))
                &&& effects.len() == 0
                &&& r matches Ok(Some((t, d)))
                &&& d == delay_ms
                &&& t@ == slot::task_for(lifecycle::retried(s, id), wf, origin, id)
            },
            FailureVerdict::Fail => {
                &&& r matches Ok(None)
                &&& failed(
                    before,
                    after,
                    wf,
                    id,
                    error,
                    FailureScope::WorkflowLevel,
                    events::effect_views(effects),
                )
            },
        }
    }
}

/// What cancelling a workflow returns, leaves behind and has done.
pub open spec fn cancel_outcome(
    before: StateView,
    after: StateView,
    wf: Seq<char>,
    retention: usize,
    r: Result<(), ActantError>,
    effects: Seq<Effect>,
) -> bool {
    let s = before.slots[wf];
    if !before.slots.contains_key(wf) {
        refused_unknown(before, after, wf, r, effects)
    } else if s.execution.state.ended() {
        r is Ok && after == before && effects.len() == 0
    } else {
        &&& r is Ok
        &&& ended(
            before,
            after,
            wf,
            SlotView { execution: execution::workflow_cancelled(s.execution), ..s },
            None,
            retention,
            events::effect_views(effects),
        )
    }
}

/// What starting a workflow returns, leaves behind and has done.
pub open spec fn start_outcome(
    before: StateView,
    after: StateView,
    wf: Seq<char>,
    origin: Option<Seq<char>>,
    now: u64,
    r: Result<Vec<TaskDefinition>, ActantError>,
    effects: Seq<Effect>,
) -> bool {
    let s = before.slots[wf];
    let running = SlotView { execution: execution::started(s.execution, now), ..s };
    if !before.slots.contains_key(wf) {
        refused_unknown(before, after, wf, r, effects)
    } else if s.state == SlotState::Loading {
        &&& after == before
        &&& effects.len() == 0
        &&& r matches Err(ActantError::InvalidState(m))
        &&& m@ == submit::about_workflow(
            wf,
            " is still loading (placeholder), cannot start"@,
        )
    } else {
        &&& after == moved(before, wf, running)
        &&& events::effect_views(effects) == seq![
            events::appended(wf, EventKind::Started),
        ]
        &&& r matches Ok(tasks)
        &&& task::task_views(tasks@) == slot::tasks_for(
            running,
            wf,
            origin,
            lifecycle::root_ids(s),
        )
    }
}

/// What failing a task returns, leaves behind and has done.
pub open spec fn fail_outcome(
    before: StateView,
    after: StateView,
    wf: Seq<char>,
    id: Seq<char>,
    error: String,
    mode: FailureScope,
    r: Result<(), ActantError>,
    effects: Seq<Effect>,
) -> bool {
    if !before.slots.contains_key(wf) {
        refused_unknown(before, after, wf, r, effects)
    } else {
        &&& r is Ok
        &&& failed(
            before,
            after,
            wf,
            id,
            error,
            mode,
            events::effect_views(effects),
        )
    }
}

/// What cancelling a task returns, leaves behind and has done.
pub open spec fn cancel_task_outcome(
    before: StateView,
    after: StateView,
    wf: Seq<char>,
    id: Seq<char>,
    retention: usize,
    r: Result<bool, ActantError>,
    effects: Seq<Effect>,
) -> bool {
    let s = before.slots[wf];
    let open = execution::cancellable(s.execution, id);
    let c = SlotView {
        execution: execution::task_cancelled(s.execution, id),
        ..s
    };
    let views = events::effect_views(effects);
    if !before.slots.contains_key(wf) {
        refused_unknown(before, after, wf, r, effects)
    } else if !open {
        r == Ok::<bool, ActantError>(false) && after == before && effects.len() == 0
    } else {
        &&& r == Ok::<bool, ActantError>(true)
        &&& views.len() > 0
        &&& views[0] == events::appended(
            wf,
            EventKind::TaskCancelled { task_id: id },
        )
        &&& if !s.execution.state.ended() && c.execution.state.ended() {
            ended(
                before,
                after,
                wf,
                c,
                Some(id),
                retention,
                views.skip(1),
            )
        } else {
            after == moved(before, wf, c) && views.len() == 1
        }
    }
}

/// What putting a task back to pending leaves and returns.
pub open spec fn pending_outcome(
    before: StateView,
    after: StateView,
    wf: Seq<char>,
    id: Seq<char>,
    r: Result<(), ActantError>,
) -> bool {
    let s = before.slots[wf];
    if !before.slots.contains_key(wf) {
        after == before && (r matches Err(e) && state::not_found(wf, e))
    } else {
        &&& r is Ok
        &&& after == state::with_slot(
            before,
            wf,
            SlotView { execution: execution::task_reset(s.execution, id, false, true), ..s },
        )
    }
}

/// What marking a task running returns, leaves behind and has done.
pub open spec fn running_outcome(
    before: StateView,
    after: StateView,
    wf: Seq<char>,
    id: Seq<char>,
    r: Result<(), ActantError>,
    effects: Seq<Effect>,
) -> bool {
    let s = before.slots[wf];
    if !before.slots.contains_key(wf) {
        refused_unknown(before, after, wf, r, effects)
    } else if execution::transition_allowed(s.execution, id) {
        &&& r is Ok
        &&& after == state::with_slot(
            before,
            wf,
            SlotView { execution: execution::task_running(s.execution, id), ..s },
        )
        &&& events::effect_views(effects) == seq![
            events::appended(wf, EventKind::TaskRunning { task_id: id }),
        ]
    } else {
        r is Ok && after == before && effects.len() == 0
    }
}

} // verus!
