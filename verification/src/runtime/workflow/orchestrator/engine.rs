//! The orchestrator's operations on workflows.
//!
//! Each operation moves the state in memory at once, and returns beside its result what
//! has to be done outside: events to append, snapshots to store, waiters to wake.
use vstd::prelude::*;
use vstd::string::*;

use crate::common::{ActantError, NodeId, TaskId, WorkflowId};
use crate::runtime::workflow::dag;
use crate::runtime::workflow::dag::{Dag, DagNode};
use crate::runtime::workflow::execution;
use crate::runtime::workflow::execution::ExecutionView;
use crate::runtime::workflow::orchestrator::events;
use crate::runtime::workflow::orchestrator::events::{
    push_effect, Effect, EffectView, EventKind, WorkflowEventPayload,
};
use crate::runtime::workflow::orchestrator::slot;
use crate::runtime::workflow::orchestrator::slot::{SlotState, SlotView, WorkflowSlot};
use crate::runtime::workflow::orchestrator::state;
use crate::runtime::workflow::orchestrator::state::{not_found_error, OrchestratorState, StateView};
use crate::runtime::workflow::orchestrator::submit;
use crate::runtime::workflow::orchestrator::submit::{workflow_message, NodeAddition};
use crate::runtime::workflow::phase::Phase;
use crate::runtime::workflow::task;
use crate::runtime::workflow::task::{copy_node, TaskDefinition};

verus! {

/// Drives the workflows of a node.
pub struct Orchestrator {
    pub state: OrchestratorState,
    pub node_id: Option<NodeId>,
    /// How many workflows are kept after they have ended. At zero none is.
    pub completed_retention_count: usize,
}

/// What the completion of a task came to.
#[derive(Debug)]
pub struct CompletionInfo {
    pub workflow_terminal: bool,
    pub ready_successors: Vec<TaskId>,
    /// Target and condition of each conditional edge that is to be evaluated.
    pub conditional_edges: Vec<(TaskId, String)>,
}

/// What adding a node came to.
#[derive(Debug)]
pub enum AddNodeOutcome {
    /// The node is new; `ready` is its task where it can run at once.
    Created { ready: Option<Box<TaskDefinition>> },
    /// The node is on record: this is how its task stands.
    Existing { state: Phase, result: Option<Vec<u8>>, error: Option<String> },
}

/// How a workflow that has ended ended, as an event.
pub open spec fn end_kind(v: ExecutionView, completed: Option<Seq<char>>) -> EventKind {
    match v.state {
        Phase::Completed => EventKind::Completed,
        Phase::Cancelled => EventKind::Cancelled,
        _ => EventKind::Failed {
            error: match completed {
                Some(id) => "workflow failed at task "@ + id,
                None => match v.error {
                    Some(e) => e,
                    None => "workflow failed"@,
                },
            },
        },
    }
}

/// Some task has a result.
pub open spec fn any_results(v: ExecutionView) -> bool {
    exists|k: Seq<char>| #[trigger] v.tasks.contains_key(k) && v.tasks[k].result is Some
}

/// `results` are the results of the tasks, by ascending identifier.
pub open spec fn sorted_results(v: ExecutionView, results: Seq<Seq<u8>>) -> bool {
    exists|ids: Seq<Seq<char>>, list: Seq<Vec<u8>>|
        #![trigger execution::results_listing(v.tasks, ids, list)]
        execution::results_listing(v.tasks, ids, list) && results == task::contents(list)
}

/// What has to be done when the workflow `wf` has ended as `v`: store the final state, or
/// erase everything where nothing is kept; append how it ended; notify.
pub open spec fn end_effects(
    effects: Seq<EffectView>,
    v: ExecutionView,
    wf: Seq<char>,
    completed: Option<Seq<char>>,
    retention: usize,
) -> bool {
    &&& effects.len() == 3
    &&& if retention == 0 {
        effects[0] == EffectView::Erase(wf)
    } else if v.state == Phase::Completed && any_results(v) {
        effects[0] matches EffectView::PersistResults(w, results) && w == wf && sorted_results(
            v,
            results,
        )
    } else {
        effects[0] == EffectView::PersistExecution(wf)
    }
    &&& effects[1] == events::appended(wf, end_kind(v, completed))
    &&& effects[2] == EffectView::NotifyEnded(wf)
}

/// The state once the workflow `wf` has ended: gone where nothing is kept.
pub open spec fn after_end(v: StateView, wf: Seq<char>, retention: usize) -> StateView {
    if retention == 0 {
        state::without(v, wf)
    } else {
        v
    }
}

/// The events for the nodes of a graph, in order.
pub open spec fn node_events(d: dag::DagView, wf: Seq<char>) -> Seq<EffectView> {
    Seq::new(
        d.order.len(),
        |i: int| events::appended(wf, EventKind::NodeAdded { node: d.nodes[d.order[i]]@ }),
    )
}

/// What has to be done for a workflow that is submitted: store it whole, before anything is
/// told of it; append that it was submitted, and its nodes.
pub open spec fn submit_effects(d: dag::DagView, wf: Seq<char>) -> Seq<EffectView> {
    seq![
        EffectView::PersistWorkflow(wf),
        events::appended(wf, EventKind::Submitted),
    ] + node_events(d, wf)
}

impl Orchestrator {
    /// The state is in order.
    pub open spec fn wf(&self) -> bool {
        self.state.wf()
    }

    /// The settings that no operation changes.
    pub open spec fn same_settings(&self, other: &Orchestrator) -> bool {
        &&& self.node_id == other.node_id
        &&& self.completed_retention_count == other.completed_retention_count
    }

    /// The node that tasks are dispatched from.
    pub open spec fn origin(&self) -> Option<Seq<char>> {
        task::node_text(self.node_id)
    }

    /// An orchestrator without workflows.
    pub fn new(completed_retention_count: usize) -> (o: Self)
        ensures
            o.wf(),
            o.state@ == state::no_workflows(),
            o.node_id is None,
            o.completed_retention_count == completed_retention_count,
    {
        Orchestrator { state: OrchestratorState::new(), node_id: None, completed_retention_count }
    }

    /// The same orchestrator under a node identifier.
    pub fn with_node_id(self, node_id: NodeId) -> (o: Self)
        ensures
            o.state == self.state,
            o.node_id == Some(node_id),
            o.completed_retention_count == self.completed_retention_count,
    {
        let mut o = self;
        o.node_id = Some(node_id);
        o
    }

    /// The node identifier.
    pub fn node_id(&self) -> (n: Option<&NodeId>)
        ensures
            match n {
                Some(id) => self.node_id == Some(*id),
                None => self.node_id is None,
            },
    {
        match &self.node_id {
            Some(id) => Some(id),
            None => None,
        }
    }

    /// The slot for a new workflow, or `None` where the submission is a harmless
    /// repetition.
    pub fn prepare_submit(&self, workflow_id: &WorkflowId, dag: Dag) -> (r: Result<
        Option<WorkflowSlot>,
        ActantError,
    >)
        requires
            self.wf(),
            dag.wf(),
        ensures
            submit_verdict(self.state@, workflow_id@, dag@, r),
            r matches Ok(Some(s)) ==> s.wf(),
    {
        if self.state.is_ready(workflow_id) {
            if dag.node_count() == 0 {
                return Ok(None);
            }
            return Err(
                ActantError::AlreadyExists(workflow_message(workflow_id, " already submitted")),
            );
        }
        Ok(Some(WorkflowSlot::submitted(workflow_id, dag)))
    }

    /// Takes in a prepared workflow.
    pub fn commit_submit(&mut self, workflow_id: &WorkflowId, slot: WorkflowSlot) -> (effects: Vec<
        Effect,
    >)
        requires
            old(self).wf(),
            slot.wf(),
        ensures
            final(self).wf(),
            final(self).same_settings(old(self)),
            final(self).state@ == state::with_slot(old(self).state@, workflow_id@, slot@),
            events::effect_views(effects@) == submit_effects(slot@.dag, workflow_id@),
    {
        let mut effects: Vec<Effect> = Vec::new();
        push_effect(&mut effects, Effect::PersistWorkflow(workflow_id.clone()));
        push_effect(
            &mut effects,
            Effect::Append(WorkflowEventPayload::Submitted { workflow_id: workflow_id.clone() }),
        );
        let ghost first = seq![
            EffectView::PersistWorkflow(workflow_id@),
            events::appended(workflow_id@, EventKind::Submitted),
        ];
        let ghost all = node_events(slot@.dag, workflow_id@);
        assert(events::effect_views(effects@) =~= first + all.take(0));
        let nodes = slot.dag.nodes();
        let ghost order = slot.dag.node_order();
        let mut i: usize = 0;
        while i < nodes.len()
            invariant
                i <= nodes@.len(),
                order == slot@.dag.order,
                dag::names_nodes(nodes@, slot.dag.node_map(), order),
                all == node_events(slot@.dag, workflow_id@),
                events::effect_views(effects@) == first + all.take(i as int),
            decreases nodes@.len() - i,
        {
            proof {
                assert(slot.dag.node_map().contains_key(order[i as int]));
                assert(all.take(i + 1) =~= all.take(i as int).push(all[i as int]));
            }
            push_effect(
                &mut effects,
                Effect::Append(
                    WorkflowEventPayload::NodeAdded {
                        workflow_id: workflow_id.clone(),
                        node: nodes[i].copy(),
                    },
                ),
            );
            assert(first + all.take(i + 1) =~= (first + all.take(i as int)).push(all[i as int]));
            i += 1;
        }
        assert(all.take(i as int) =~= all);
        self.state.insert_slot(workflow_id.clone(), slot);
        effects
    }

    /// Submits a workflow. One whose data is here already is refused, unless the graph is
    /// empty: that is a repetition without effect.
    pub fn submit(&mut self, workflow_id: &WorkflowId, dag: Dag) -> (r: (
        Result<(), ActantError>,
        Vec<Effect>,
    ))
        requires
            old(self).wf(),
            dag.wf(),
        ensures
            final(self).wf(),
            final(self).same_settings(old(self)),
            submit_outcome(
                old(self).state@,
                final(self).state@,
                workflow_id@,
                dag@,
                r.0,
                r.1@,
            ),
    {
        match self.prepare_submit(workflow_id, dag) {
            Ok(Some(slot)) => {
                let effects = self.commit_submit(workflow_id, slot);
                (Ok(()), effects)
            },
            Ok(None) => (Ok(()), Vec::new()),
            Err(e) => (Err(e), Vec::new()),
        }
    }

    /// Submits a workflow that may run for `timeout_ms`.
    pub fn submit_with_timeout(
        &mut self,
        workflow_id: &WorkflowId,
        dag: Dag,
        timeout_ms: u64,
    ) -> (r: (Result<(), ActantError>, Vec<Effect>))
        requires
            old(self).wf(),
            dag.wf(),
        ensures
            final(self).wf(),
            final(self).same_settings(old(self)),
            timed_submit_outcome(
                old(self).state@,
                final(self).state@,
                workflow_id@,
                dag@,
                timeout_ms,
                r.0,
                r.1@,
            ),
    {
        let (result, effects) = self.submit(workflow_id, dag);
        match result {
            Ok(()) => {
                let ghost before = self.state@;
                if let Some(slot) = self.state.slot_mut(workflow_id) {
                    slot.execution.set_deadline_ms(timeout_ms);
                }
                self.state.mark_dirty(workflow_id);
                proof {
                    if ready(old(self).state@, workflow_id@) {
                        assert(events::effect_views(effects@) =~= Seq::empty());
                    }
                }
                (Ok(()), effects)
            },
            Err(e) => (Err(e), effects),
        }
    }
}

impl Orchestrator {
    /// Winds up a workflow that has ended: stores its final state and results, or erases
    /// it where nothing is kept.
    pub fn complete_terminal(
        &mut self,
        workflow_id: &WorkflowId,
        completed_task_id: Option<&TaskId>,
    ) -> (effects: Vec<Effect>)
        requires
            old(self).wf(),
            old(self).state@.slots.contains_key(workflow_id@),
        ensures
            final(self).wf(),
            final(self).same_settings(old(self)),
            final(self).state@ == after_end(
                old(self).state@,
                workflow_id@,
                old(self).completed_retention_count,
            ),
            end_effects(
                events::effect_views(effects@),
                old(self).state@.slots[workflow_id@].execution,
                workflow_id@,
                match completed_task_id {
                    Some(id) => Some(id@),
                    None => None,
                },
                old(self).completed_retention_count,
            ),
    {
        let ghost v = self.state@.slots[workflow_id@].execution;
        let mut effects: Vec<Effect> = Vec::new();
        let mut end = WorkflowEventPayload::Completed { workflow_id: workflow_id.clone() };
        if let Some(slot) = self.state.slot(workflow_id) {
            let execution = &slot.execution;
            end = match execution.state {
                Phase::Completed => WorkflowEventPayload::Completed {
                    workflow_id: workflow_id.clone(),
                },
                Phase::Cancelled => WorkflowEventPayload::Cancelled {
                    workflow_id: workflow_id.clone(),
                },
                _ => {
                    let error = match completed_task_id {
                        Some(id) => {
                            let mut m = "workflow failed at task ".to_owned();
                            m.append(id.0.as_str());
                            m
                        },
                        None => match &execution.error {
                            Some(e) => e.clone(),
                            None => "workflow failed".to_owned(),
                        },
                    };
                    WorkflowEventPayload::Failed { workflow_id: workflow_id.clone(), error }
                },
            };
            if self.completed_retention_count == 0 {
                push_effect(&mut effects, Effect::Erase(workflow_id.clone()));
            } else if execution.state == Phase::Completed {
                let results = execution.collected_results();
                if results.len() > 0 {
                    proof {
                        let ids = choose|ids: Seq<Seq<char>>|
                            execution::results_listing(v.tasks, ids, results@);
                        assert(v.tasks.contains_key(ids[0]));
                        assert(sorted_results(v, task::contents(results@)));
                    }
                    push_effect(
                        &mut effects,
                        Effect::PersistResults(workflow_id.clone(), results),
                    );
                } else {
                    proof {
                        let ids = choose|ids: Seq<Seq<char>>|
                            execution::results_listing(v.tasks, ids, results@);
                        assert(!any_results(v));
                    }
                    push_effect(&mut effects, Effect::PersistExecution(workflow_id.clone()));
                }
            } else {
                push_effect(&mut effects, Effect::PersistExecution(workflow_id.clone()));
            }
        }
        if self.completed_retention_count == 0 {
            self.state.remove_workflow(workflow_id);
        }
        push_effect(&mut effects, Effect::Append(end));
        push_effect(&mut effects, Effect::NotifyEnded(workflow_id.clone()));
        effects
    }

    /// Adds one node to a workflow at time `now`.
    pub fn add_node(
        &mut self,
        workflow_id: &WorkflowId,
        node: DagNode,
        deps: Vec<TaskId>,
        now: u64,
    ) -> (r: (Result<AddNodeOutcome, ActantError>, Vec<Effect>))
        requires
            old(self).wf(),
            old(self).state@.slots.contains_key(workflow_id@)
                ==> old(self).state@.slots[workflow_id@].execution.total < usize::MAX,
        ensures
            final(self).wf(),
            final(self).same_settings(old(self)),
            !old(self).state@.slots.contains_key(workflow_id@) ==> {
                &&& r.0 matches Err(e) && state::not_found(workflow_id@, e)
                &&& r.1@.len() == 0
                &&& final(self).state@ == old(self).state@
            },
            old(self).state@.slots.contains_key(workflow_id@) ==> added_node(
                old(self).state@.slots[workflow_id@],
                final(self).state@.slots[workflow_id@],
                workflow_id@,
                old(self).origin(),
                node,
                deps@,
                now,
                r.0,
                events::effect_views(r.1@),
            ) && final(self).state@ == state::with_slot(
                old(self).state@,
                workflow_id@,
                final(self).state@.slots[workflow_id@],
            ),
    {
        let task_id = node.task_id.clone();
        let mut effects: Vec<Effect> = Vec::new();
        let ghost before = self.state@;
        let origin = copy_node(&self.node_id);
        match self.state.slot_mut(workflow_id) {
            Some(slot) => {
                let ghost old_slot = slot@;
                let recorded = node.copy();
                let outcome = slot.add_node(workflow_id, node, deps, now);
                match outcome {
                    Ok(NodeAddition::Created { waits_for, started }) => {
                        push_effect(&mut effects, Effect::PersistWorkflow(workflow_id.clone()));
                        push_effect(
                            &mut effects,
                            Effect::Append(
                                WorkflowEventPayload::NodeAdded {
                                    workflow_id: workflow_id.clone(),
                                    node: recorded,
                                },
                            ),
                        );
                        if started {
                            push_effect(
                                &mut effects,
                                Effect::Append(
                                    WorkflowEventPayload::Started {
                                        workflow_id: workflow_id.clone(),
                                    },
                                ),
                            );
                        }
                        let ready = if waits_for == 0 {
                            match slot.build_task(workflow_id, &origin, &task_id) {
                                Some(t) => Some(Box::new(t)),
                                None => None,
                            }
                        } else {
                            None
                        };
                        proof {
                            assert(events::effect_views(effects@) =~= created_effects(
                                workflow_id@,
                                node,
                                started,
                            ));
                        }
                        (Ok(AddNodeOutcome::Created { ready }), effects)
                    },
                    Ok(NodeAddition::Existing { state, result, error }) => {
                        (Ok(AddNodeOutcome::Existing { state, result, error }), effects)
                    },
                    Err(e) => (Err(e), effects),
                }
            },
            None => (Err(not_found_error(workflow_id)), effects),
        }
    }
}

/// What has to be done for a new node.
pub open spec fn created_effects(wf: Seq<char>, node: DagNode, started: bool) -> Seq<EffectView> {
    let base = seq![
        EffectView::PersistWorkflow(wf),
        events::appended(wf, EventKind::NodeAdded { node: node@ }),
    ];
    if started {
        base.push(events::appended(wf, EventKind::Started))
    } else {
        base
    }
}

/// What adding a node to a known workflow returns, leaves behind and has done.
pub open spec fn added_node(
    before: SlotView,
    after: SlotView,
    wf: Seq<char>,
    origin: Option<Seq<char>>,
    node: DagNode,
    deps: Seq<TaskId>,
    now: u64,
    r: Result<AddNodeOutcome, ActantError>,
    effects: Seq<EffectView>,
) -> bool {
    exists|inner: Result<NodeAddition, ActantError>|
        {
            &&& #[trigger] submit::add_node_outcome(before, after, wf, node, deps, now, inner)
            &&& match inner {
                Ok(NodeAddition::Created { waits_for, started }) => {
                    &&& r matches Ok(AddNodeOutcome::Created { ready })
                    &&& ready is Some <==> waits_for == 0
                    &&& ready matches Some(t) ==> t@ == slot::task_for(
                        after,
                        wf,
                        origin,
                        node.task_id@,
                    )
                    &&& effects == created_effects(wf, node, started)
                },
                Ok(NodeAddition::Existing { state, result, error }) => {
                    &&& r == Ok::<AddNodeOutcome, ActantError>(
                        AddNodeOutcome::Existing { state, result, error },
                    )
                    &&& effects.len() == 0
                },
                Err(e) => r == Err::<AddNodeOutcome, ActantError>(e) && effects.len() == 0,
            }
        }
}

/// A node that is submitted again changes nothing and has nothing done. Submitted as it was,
/// with the same tasks of the graph to wait for, it is answered with how its task stands;
/// submitted otherwise, it is refused as a history that diverged.
pub proof fn law_node_is_added_once(
    s: WorkflowSlot,
    after: SlotView,
    last: SlotView,
    wf: Seq<char>,
    origin: Option<Seq<char>>,
    node: DagNode,
    deps: Seq<TaskId>,
    now: u64,
    r: Result<AddNodeOutcome, ActantError>,
    effects: Seq<EffectView>,
    again: DagNode,
    deps_again: Seq<TaskId>,
    later: u64,
    r_again: Result<AddNodeOutcome, ActantError>,
    effects_again: Seq<EffectView>,
)
    requires
        s.wf(),
        added_node(s@, after, wf, origin, node, deps, now, r, effects),
        r matches Ok(AddNodeOutcome::Created { .. }),
        again.task_id@ == node.task_id@,
        added_node(
            after,
            last,
            wf,
            origin,
            again,
            deps_again,
            later,
            r_again,
            effects_again,
        ),
    ensures
        last == after,
        effects_again.len() == 0,
        if submit::same_submission(after.dag.nodes, node, deps, again, deps_again) {
            &&& after.execution.tasks.contains_key(node.task_id@)
            &&& r_again matches Ok(AddNodeOutcome::Existing { state, result, error })
            &&& state == after.execution.tasks[node.task_id@].state
            &&& result is Some <==> after.execution.tasks[node.task_id@].result is Some
            &&& result is Some ==> result->0@ == after.execution.tasks[node.task_id@].result->0@
            &&& error == after.execution.tasks[node.task_id@].error
        } else {
            r_again matches Err(ActantError::Replay(m)) && m@ == submit::diverged(
                wf,
                node.task_id@,
            )
        },
{
    submit::lemma_added_node_matches(s, node, deps, now, again, deps_again);
    let inner = choose|inner: Result<submit::NodeAddition, ActantError>| #[trigger]
        submit::add_node_outcome(s@, after, wf, node, deps, now, inner);
    assert(after == submit::node_added(s@, node, deps, now));
}

/// What submitting a workflow returns, leaves behind and has done.
pub open spec fn submit_outcome(
    before: StateView,
    after: StateView,
    wf: Seq<char>,
    d: dag::DagView,
    r: Result<(), ActantError>,
    effects: Seq<Effect>,
) -> bool {
    if ready(before, wf) {
        &&& after == before
        &&& effects.len() == 0
        &&& if d.nodes.len() == 0 {
            r is Ok
        } else {
            r matches Err(ActantError::AlreadyExists(m)) && m@ == submit::about_workflow(
                wf,
                " already submitted"@,
            )
        }
    } else {
        &&& r is Ok
        &&& after == state::with_slot(before, wf, submit::submitted(wf, d))
        &&& events::effect_views(effects) == submit_effects(d, wf)
    }
}

/// What submitting a workflow that may run for `timeout_ms` returns, leaves behind and has done.
pub open spec fn timed_submit_outcome(
    before: StateView,
    after: StateView,
    wf: Seq<char>,
    d: dag::DagView,
    timeout_ms: u64,
    r: Result<(), ActantError>,
    effects: Seq<Effect>,
) -> bool {
    let known = ready(before, wf);
    let base = if known {
        before
    } else {
        state::with_slot(
            before,
            wf,
            submit::submitted(wf, d),
        )
    };
    let s = base.slots[wf];
    if known && d.nodes.len() > 0 {
        &&& r matches Err(ActantError::AlreadyExists(m))
        &&& m@ == submit::about_workflow(wf, " already submitted"@)
        &&& after == before
        &&& effects.len() == 0
    } else {
        &&& r is Ok
        &&& after == state::with_dirty(
            state::with_slot(
                base,
                wf,
                SlotView {
                    execution: ExecutionView {
                        deadline_ms: Some(timeout_ms),
                        ..s.execution
                    },
                    ..s
                },
            ),
            wf,
        )
        &&& events::effect_views(effects) == if known {
            Seq::empty()
        } else {
            submit_effects(d, wf)
        }
    }
}

/// The workflow's data is here.
pub open spec fn ready(v: StateView, wf: Seq<char>) -> bool {
    v.slots.contains_key(wf) && v.slots[wf].state == SlotState::Ready
}

/// What preparing a submission returns.
pub open spec fn submit_verdict(
    v: StateView,
    wf: Seq<char>,
    d: dag::DagView,
    r: Result<Option<WorkflowSlot>, ActantError>,
) -> bool {
    if ready(v, wf) && d.nodes.len() == 0 {
        r matches Ok(None)
    } else if ready(v, wf) {
        r matches Err(ActantError::AlreadyExists(m)) && m@ == submit::about_workflow(
            wf,
            " already submitted"@,
        )
    } else {
        r matches Ok(Some(s)) && s@ == submit::submitted(wf, d)
    }
}

} // verus!
