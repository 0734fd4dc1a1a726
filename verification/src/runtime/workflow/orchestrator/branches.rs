//! Completed tasks and the conditions on the edges that leave them.
use vstd::prelude::*;
use vstd::string::*;

use crate::common;
use crate::common::{ActantError, TaskId, WorkflowId};
use crate::runtime::workflow::orchestrator::drive;
use crate::runtime::workflow::orchestrator::engine::{CompletionInfo, Orchestrator};
use crate::runtime::workflow::orchestrator::events;
use crate::runtime::workflow::orchestrator::events::{Effect, EffectView};
use crate::runtime::workflow::orchestrator::progress;
use crate::runtime::workflow::orchestrator::skip;
use crate::runtime::workflow::orchestrator::skip::BranchSkip;
use crate::runtime::workflow::orchestrator::slot;
use crate::runtime::workflow::orchestrator::slot::SlotView;
use crate::runtime::workflow::orchestrator::state;
use crate::runtime::workflow::orchestrator::state::{not_found_error, StateView};
use crate::runtime::workflow::task;
use crate::runtime::workflow::task::{copy_node, TaskDefinition};

verus! {

/// Decides whether the conditions on edges hold.
pub trait ConditionEvaluator {
    /// Whether `condition` holds on an edge that leaves `task_id`.
    fn evaluate(
        &self,
        workflow_id: &WorkflowId,
        task_id: &TaskId,
        condition: &String,
    ) -> Result<bool, ActantError>;
}

/// `verdict` is what the evaluator may say of `condition`: whether it holds, or nothing
/// where the evaluation failed.
pub open spec fn may_say<E: ConditionEvaluator>(
    evaluator: &E,
    workflow_id: &WorkflowId,
    task_id: &TaskId,
    condition: &String,
    verdict: Option<bool>,
) -> bool {
    exists|r: Result<bool, ActantError>|
        {
            &&& #[trigger] call_ensures(E::evaluate, (evaluator, workflow_id, task_id, condition), r)
            &&& verdict == match r {
                Ok(b) => Some(b),
                Err(_) => None,
            }
        }
}

/// `verdicts` is what the evaluator may say of each of `edges`, in order.
pub open spec fn may_say_of<E: ConditionEvaluator>(
    evaluator: &E,
    workflow_id: &WorkflowId,
    task_id: &TaskId,
    edges: Seq<(TaskId, String)>,
    verdicts: Seq<Option<bool>>,
) -> bool {
    &&& verdicts.len() == edges.len()
    &&& forall|i: int|
        0 <= i < edges.len() ==> may_say(
            evaluator,
            workflow_id,
            task_id,
            &(#[trigger] edges[i]).1,
            verdicts[i],
        )
}

/// What an evaluator says of each of `edges`, in order.
pub fn evaluate_edges<E: ConditionEvaluator>(
    evaluator: &E,
    workflow_id: &WorkflowId,
    task_id: &TaskId,
    edges: &Vec<(TaskId, String)>,
) -> (verdicts: Vec<Option<bool>>)
    ensures
        may_say_of(evaluator, workflow_id, task_id, edges@, verdicts@),
{
    let mut verdicts: Vec<Option<bool>> = Vec::new();
    let mut i: usize = 0;
    while i < edges.len()
        invariant
            i <= edges@.len(),
            verdicts@.len() == i,
            forall|j: int|
                0 <= j < i ==> may_say(
                    evaluator,
                    workflow_id,
                    task_id,
                    &(#[trigger] edges@[j]).1,
                    verdicts@[j],
                ),
        decreases edges@.len() - i,
    {
        let r = evaluator.evaluate(workflow_id, task_id, &edges[i].1);
        let v = match r {
            Ok(b) => Some(b),
            Err(_) => None,
        };
        assert(may_say(evaluator, workflow_id, task_id, &edges@[i as int].1, v));
        verdicts.push(v);
        i += 1;
    }
    verdicts
}

/// What building one task returns.
pub open spec fn one_built(
    s: SlotView,
    wf: Seq<char>,
    origin: Option<Seq<char>>,
    id: Seq<char>,
    r: Result<Option<TaskDefinition>, ActantError>,
) -> bool {
    if s.dag.nodes.contains_key(id) {
        r matches Ok(Some(t)) && t@ == slot::task_for(s, wf, origin, id)
    } else {
        r matches Err(ActantError::Internal(m)) && m@ == slot::node_not_in_dag(id)
    }
}

/// What activating the edge into `id` of a known workflow returns and leaves behind.
pub open spec fn activated(
    before: StateView,
    after: StateView,
    wf: Seq<char>,
    origin: Option<Seq<char>>,
    id: Seq<char>,
    r: Result<Option<TaskDefinition>, ActantError>,
) -> bool {
    exists|s: SlotView, inner: Result<bool, ActantError>|
        {
            &&& #[trigger] progress::activation_outcome(before.slots[wf], s, id, inner)
            &&& after == state::with_slot(before, wf, s)
            &&& match inner {
                Ok(true) => one_built(s, wf, origin, id, r),
                Ok(false) => r matches Ok(None),
                Err(e) => r == Err::<Option<TaskDefinition>, ActantError>(e),
            }
        }
}

/// What skipping the branch that starts with `id` of a known workflow returns, leaves
/// behind and has done.
pub open spec fn branch_skipped(
    before: StateView,
    after: StateView,
    wf: Seq<char>,
    origin: Option<Seq<char>>,
    id: Seq<char>,
    retention: usize,
    r: Result<Vec<TaskDefinition>, ActantError>,
    effects: Seq<EffectView>,
) -> bool {
    exists|s: SlotView, inner: Result<BranchSkip, ActantError>|
        {
            &&& #[trigger] skip::skip_outcome(before.slots[wf], s, id, inner)
            &&& match inner {
                Ok(BranchSkip::Waiting) => {
                    &&& after == drive::moved(before, wf, s)
                    &&& effects.len() == 0
                    &&& r matches Ok(tasks)
                    &&& tasks@.len() == 0
                },
                Ok(BranchSkip::Ready) => {
                    &&& after == drive::moved(before, wf, s)
                    &&& effects.len() == 0
                    &&& slot::tasks_built(s, wf, origin, seq![id], r)
                },
                Ok(BranchSkip::Ended) => {
                    &&& drive::ended(before, after, wf, s, Some(id), retention, effects)
                    &&& r matches Ok(tasks)
                    &&& tasks@.len() == 0
                },
                Ok(BranchSkip::Skipped(ready)) => {
                    &&& after == drive::moved(before, wf, s)
                    &&& effects.len() == 0
                    &&& slot::tasks_built(s, wf, origin, common::task_texts(ready@), r)
                },
                Err(e) => {
                    &&& after == before
                    &&& effects.len() == 0
                    &&& r == Err::<Vec<TaskDefinition>, ActantError>(e)
                },
            }
        }
}

/// What dealing with one conditional edge into `id` returns, leaves behind and has done.
pub open spec fn condition_settled(
    before: StateView,
    after: StateView,
    wf: Seq<char>,
    origin: Option<Seq<char>>,
    id: Seq<char>,
    holds: bool,
    retention: usize,
    r: Result<Vec<TaskDefinition>, ActantError>,
    effects: Seq<EffectView>,
) -> bool {
    if !before.slots.contains_key(wf) {
        &&& after == before
        &&& effects.len() == 0
        &&& r matches Err(e)
        &&& state::not_found(wf, e)
    } else if holds {
        &&& effects.len() == 0
        &&& exists|inner: Result<Option<TaskDefinition>, ActantError>|
            {
                &&& #[trigger] activated(before, after, wf, origin, id, inner)
                &&& match inner {
                    Ok(Some(t)) => r matches Ok(tasks) && tasks@ == seq![t],
                    Ok(None) => r matches Ok(tasks) && tasks@.len() == 0,
                    Err(e) => r == Err::<Vec<TaskDefinition>, ActantError>(e),
                }
            }
    } else {
        branch_skipped(before, after, wf, origin, id, retention, r, effects)
    }
}

/// An edge by its target and its condition.
pub open spec fn edge_texts(edges: Seq<(TaskId, String)>) -> Seq<(Seq<char>, Seq<char>)> {
    Seq::new(edges.len(), |i: int| (edges[i].0@, edges[i].1@))
}

/// How far conditional edges have been dealt with: the workflows, the tasks that can run
/// now, the edges that nobody could evaluate, and what is to be done.
#[verifier::ext_equal]
pub struct Settling {
    pub state: StateView,
    pub ready: Seq<TaskDefinition>,
    pub deferred: Seq<(Seq<char>, Seq<char>)>,
    pub effects: Seq<EffectView>,
}

/// `b` comes of `a` by dealing with `edge`, which gives `step` and `effects`.
pub open spec fn step_taken(
    a: Settling,
    b: Settling,
    wf: Seq<char>,
    origin: Option<Seq<char>>,
    retention: usize,
    edge: (TaskId, String),
    holds: bool,
    step: Result<Vec<TaskDefinition>, ActantError>,
    effects: Seq<EffectView>,
) -> bool {
    &&& condition_settled(
        a.state,
        b.state,
        wf,
        origin,
        edge.0@,
        holds,
        retention,
        step,
        effects,
    )
    &&& step matches Ok(tasks)
    &&& b.ready == a.ready + tasks@
    &&& b.deferred == a.deferred
    &&& b.effects == a.effects + effects
}

/// `b` comes of `a` by one more edge: it is put off where there is no verdict, and dealt
/// with where there is one.
pub open spec fn settles_next(
    a: Settling,
    b: Settling,
    wf: Seq<char>,
    origin: Option<Seq<char>>,
    retention: usize,
    edge: (TaskId, String),
    verdict: Option<bool>,
) -> bool {
    match verdict {
        None => b == (Settling { deferred: a.deferred.push((edge.0@, edge.1@)), ..a }),
        Some(holds) => exists|
            step: Result<Vec<TaskDefinition>, ActantError>,
            effects: Seq<EffectView>,
        | #[trigger]
            step_taken(a, b, wf, origin, retention, edge, holds, step, effects),
    }
}

/// `trace` is how the first edges were dealt with, one after the other.
pub open spec fn settling_trace(
    before: StateView,
    wf: Seq<char>,
    origin: Option<Seq<char>>,
    retention: usize,
    edges: Seq<(TaskId, String)>,
    verdicts: Seq<Option<bool>>,
    trace: Seq<Settling>,
) -> bool {
    &&& 1 <= trace.len() <= edges.len() + 1
    &&& trace[0] == (Settling {
        state: before,
        ready: Seq::empty(),
        deferred: Seq::empty(),
        effects: Seq::empty(),
    })
    &&& forall|i: int|
        0 <= i < trace.len() - 1 ==> settles_next(
            #[trigger] trace[i],
            trace[i + 1],
            wf,
            origin,
            retention,
            edges[i],
            verdicts[i],
        )
}

/// What dealing with conditional edges returns, leaves behind and has done: every edge is
/// dealt with in turn, up to the first that fails.
pub open spec fn conditions_settled(
    before: StateView,
    after: StateView,
    wf: Seq<char>,
    origin: Option<Seq<char>>,
    retention: usize,
    edges: Seq<(TaskId, String)>,
    verdicts: Seq<Option<bool>>,
    r: Result<(Vec<TaskDefinition>, Vec<(TaskId, String)>), ActantError>,
    effects: Seq<EffectView>,
) -> bool {
    exists|trace: Seq<Settling>|
        {
            &&& #[trigger] settling_trace(before, wf, origin, retention, edges, verdicts, trace)
            &&& match r {
                Ok(done) => {
                    &&& trace.len() == edges.len() + 1
                    &&& after == trace.last().state
                    &&& done.0@ == trace.last().ready
                    &&& edge_texts(done.1@) == trace.last().deferred
                    &&& effects == trace.last().effects
                },
                Err(e) => settling_failed(
                    trace.last(),
                    after,
                    wf,
                    origin,
                    retention,
                    edges[trace.len() - 1],
                    verdicts[trace.len() - 1],
                    e,
                    effects,
                ) && trace.len() <= edges.len(),
            }
        }
}

/// Dealing with `edge` after `a` fails with `e` and has `more` done.
pub open spec fn step_refused(
    a: Settling,
    after: StateView,
    wf: Seq<char>,
    origin: Option<Seq<char>>,
    retention: usize,
    edge: (TaskId, String),
    holds: bool,
    e: ActantError,
    more: Seq<EffectView>,
    effects: Seq<EffectView>,
) -> bool {
    &&& condition_settled(a.state, after, wf, origin, edge.0@, holds, retention, Err(e), more)
    &&& effects == a.effects + more
}

/// Dealing with the next edge after `a` fails with `e`.
pub open spec fn settling_failed(
    a: Settling,
    after: StateView,
    wf: Seq<char>,
    origin: Option<Seq<char>>,
    retention: usize,
    edge: (TaskId, String),
    verdict: Option<bool>,
    e: ActantError,
    effects: Seq<EffectView>,
) -> bool {
    &&& verdict matches Some(holds)
    &&& exists|more: Seq<EffectView>| #[trigger]
        step_refused(a, after, wf, origin, retention, edge, holds, e, more, effects)
}

impl Orchestrator {
    /// Completes a task. Returns the tasks that can run now, the conditional edges that
    /// are to be evaluated, and whether the workflow has ended. Where it has, nothing is left
    /// to run, whether or not the workflow is kept.
    pub fn on_task_completed(
        &mut self,
        workflow_id: &WorkflowId,
        task_id: &TaskId,
        result: Vec<u8>,
    ) -> (r: (
        Result<(Vec<TaskDefinition>, Vec<(TaskId, String)>, bool), ActantError>,
        Vec<Effect>,
    ))
        requires
            old(self).wf(),
        ensures
            final(self).wf(),
            final(self).same_settings(old(self)),
            ({
                let before = old(self).state@;
                let after = final(self).state@;
                let wf = workflow_id@;
                if !before.slots.contains_key(wf) {
                    drive::refused_unknown(before, after, wf, r.0, r.1@)
                } else {
                    task_done(
                        before,
                        after,
                        wf,
                        old(self).origin(),
                        task_id@,
                        result,
                        old(self).completed_retention_count,
                        r.0,
                        events::effect_views(r.1@),
                    )
                }
            }),
    {
        let (outcome, effects) = self.complete_task(workflow_id, task_id, result, None);
        match outcome {
            Ok(info) => {
                if info.workflow_terminal {
                    return (Ok((Vec::new(), Vec::new(), true)), effects);
                }
                match self.build_ready_tasks_for(workflow_id, &info.ready_successors) {
                    Ok(ready) => (
                        Ok((ready, info.conditional_edges, info.workflow_terminal)),
                        effects,
                    ),
                    Err(e) => (Err(e), effects),
                }
            },
            Err(e) => (Err(e), effects),
        }
    }

    /// The condition of an edge into `task_id` holds. Returns the task where it can run
    /// now.
    pub fn activate_conditional_successor(
        &mut self,
        workflow_id: &WorkflowId,
        task_id: &TaskId,
    ) -> (r: Result<Option<TaskDefinition>, ActantError>)
        requires
            old(self).wf(),
        ensures
            final(self).wf(),
            final(self).same_settings(old(self)),
            if !old(self).state@.slots.contains_key(workflow_id@) {
                &&& final(self).state@ == old(self).state@
                &&& r matches Err(e)
                &&& state::not_found(workflow_id@, e)
            } else {
                activated(
                    old(self).state@,
                    final(self).state@,
                    workflow_id@,
                    old(self).origin(),
                    task_id@,
                    r,
                )
            },
    {
        let origin = copy_node(&self.node_id);
        match self.state.slot_mut(workflow_id) {
            Some(slot) => {
                let inner = slot.activate_conditional(task_id);
                match inner {
                    Ok(true) => match slot.build_task(workflow_id, &origin, task_id) {
                        Some(t) => Ok(Some(t)),
                        None => {
                            let mut m = "node ".to_owned();
                            m.append(task_id.0.as_str());
                            m.append(" not found in dag");
                            Err(ActantError::Internal(m))
                        },
                    },
                    Ok(false) => Ok(None),
                    Err(e) => Err(e),
                }
            },
            None => Err(not_found_error(workflow_id)),
        }
    }

    /// The condition of an edge into `task_id` does not hold. Returns the tasks that can
    /// run now.
    pub fn skip_conditional_branch(&mut self, workflow_id: &WorkflowId, task_id: &TaskId) -> (r: (
        Result<Vec<TaskDefinition>, ActantError>,
        Vec<Effect>,
    ))
        requires
            old(self).wf(),
        ensures
            final(self).wf(),
            final(self).same_settings(old(self)),
            if !old(self).state@.slots.contains_key(workflow_id@) {
                drive::refused_unknown(
                    old(self).state@,
                    final(self).state@,
                    workflow_id@,
                    r.0,
                    r.1@,
                )
            } else {
                branch_skipped(
                    old(self).state@,
                    final(self).state@,
                    workflow_id@,
                    old(self).origin(),
                    task_id@,
                    old(self).completed_retention_count,
                    r.0,
                    events::effect_views(r.1@),
                )
            },
    {
        let ghost before = self.state@;
        let ghost wf = workflow_id@;
        let outcome = match self.state.slot_mut(workflow_id) {
            Some(slot) => slot.skip_branch(task_id),
            None => {
                return (Err(not_found_error(workflow_id)), Vec::new());
            },
        };
        let ghost s = self.state@.slots[wf];
        assert(skip::skip_outcome(before.slots[wf], s, task_id@, outcome));
        match outcome {
            Ok(BranchSkip::Waiting) => {
                self.state.mark_dirty(workflow_id);
                (Ok(Vec::new()), Vec::new())
            },
            Ok(BranchSkip::Ready) => {
                self.state.mark_dirty(workflow_id);
                let mut ids: Vec<TaskId> = Vec::new();
                ids.push(task_id.clone());
                assert(common::task_texts(ids@) =~= seq![task_id@]);
                (self.build_ready_tasks_for(workflow_id, &ids), Vec::new())
            },
            Ok(BranchSkip::Ended) => {
                let effects = self.complete_terminal(workflow_id, Some(task_id));
                (Ok(Vec::new()), effects)
            },
            Ok(BranchSkip::Skipped(ready)) => {
                self.state.mark_dirty(workflow_id);
                (self.build_ready_tasks_for(workflow_id, &ready), Vec::new())
            },
            Err(e) => {
                assert(self.state@.slots =~= before.slots);
                (Err(e), Vec::new())
            },
        }
    }

    /// Deals with one conditional edge into `task_id`: takes it where its condition
    /// holds, skips it where it does not. Returns the tasks that can run now.
    pub fn settle_condition(
        &mut self,
        workflow_id: &WorkflowId,
        task_id: &TaskId,
        holds: bool,
    ) -> (r: (Result<Vec<TaskDefinition>, ActantError>, Vec<Effect>))
        requires
            old(self).wf(),
        ensures
            final(self).wf(),
            final(self).same_settings(old(self)),
            condition_settled(
                old(self).state@,
                final(self).state@,
                workflow_id@,
                old(self).origin(),
                task_id@,
                holds,
                old(self).completed_retention_count,
                r.0,
                events::effect_views(r.1@),
            ),
    {
        if holds {
            let inner = self.activate_conditional_successor(workflow_id, task_id);
            match inner {
                Ok(Some(t)) => {
                    let mut tasks: Vec<TaskDefinition> = Vec::new();
                    tasks.push(t);
                    assert(tasks@ =~= seq![t]);
                    (Ok(tasks), Vec::new())
                },
                Ok(None) => (Ok(Vec::new()), Vec::new()),
                Err(e) => (Err(e), Vec::new()),
            }
        } else {
            self.skip_conditional_branch(workflow_id, task_id)
        }
    }

    /// Deals with conditional edges as `verdicts` says, one after the other. Returns the
    /// tasks that can run now, and the edges without a verdict.
    pub fn settle_conditions(
        &mut self,
        workflow_id: &WorkflowId,
        edges: &Vec<(TaskId, String)>,
        verdicts: &Vec<Option<bool>>,
    ) -> (r: (
        Result<(Vec<TaskDefinition>, Vec<(TaskId, String)>), ActantError>,
        Vec<Effect>,
    ))
        requires
            old(self).wf(),
            verdicts@.len() == edges@.len(),
        ensures
            final(self).wf(),
            final(self).same_settings(old(self)),
            conditions_settled(
                old(self).state@,
                final(self).state@,
                workflow_id@,
                old(self).origin(),
                old(self).completed_retention_count,
                edges@,
                verdicts@,
                r.0,
                events::effect_views(r.1@),
            ),
    {
        let ghost before = self.state@;
        let ghost wf = workflow_id@;
        let ghost origin = self.origin();
        let ghost retention = self.completed_retention_count;
        let mut ready: Vec<TaskDefinition> = Vec::new();
        let mut deferred: Vec<(TaskId, String)> = Vec::new();
        let mut effects: Vec<Effect> = Vec::new();
        let ghost mut trace: Seq<Settling> = seq![
            Settling {
                state: before,
                ready: Seq::empty(),
                deferred: Seq::empty(),
                effects: Seq::empty(),
            },
        ];
        let mut i: usize = 0;
        assert(edge_texts(deferred@) =~= Seq::empty());
        assert(events::effect_views(effects@) =~= Seq::empty());
        assert(ready@ =~= Seq::empty());
        while i < edges.len()
            invariant
                i <= edges@.len(),
                verdicts@.len() == edges@.len(),
                self.wf(),
                self.same_settings(old(self)),
                wf == workflow_id@,
                before == old(self).state@,
                origin == old(self).origin(),
                retention == old(self).completed_retention_count,
                settling_trace(before, wf, origin, retention, edges@, verdicts@, trace),
                trace.len() == i + 1,
                trace.last() == (Settling {
                    state: self.state@,
                    ready: ready@,
                    deferred: edge_texts(deferred@),
                    effects: events::effect_views(effects@),
                }),
            decreases edges@.len() - i,
        {
            let ghost a = trace.last();
            let ghost deferred_before = deferred@;
            let ghost effects_before = effects@;
            let ghost settled_state = self.state@;
            match verdicts[i] {
                Some(holds) => {
                    let (outcome, mut more) = self.settle_condition(
                        workflow_id,
                        &edges[i].0,
                        holds,
                    );
                    let ghost more_views = events::effect_views(more@);
                    let ghost more_effects = more@;
                    effects.append(&mut more);
                    proof {
                        assert(effects@ =~= effects_before + more_effects);
                        assert(events::effect_views(effects@) =~= a.effects + more_views);
                    }
                    match outcome {
                        Ok(tasks) => {
                            let ghost taken = tasks@;
                            let ghost ready_before = ready@;
                            let mut tasks = tasks;
                            ready.append(&mut tasks);
                            proof {
                                assert(ready@ =~= ready_before + taken);
                                assert(step_taken(
                                    a,
                                    Settling {
                                        state: self.state@,
                                        ready: ready@,
                                        deferred: edge_texts(deferred@),
                                        effects: events::effect_views(effects@),
                                    },
                                    wf,
                                    origin,
                                    retention,
                                    edges@[i as int],
                                    holds,
                                    outcome,
                                    more_views,
                                ));
                            }
                        },
                        Err(e) => {
                            proof {
                                assert(step_refused(
                                    a,
                                    self.state@,
                                    wf,
                                    origin,
                                    retention,
                                    edges@[trace.len() - 1],
                                    holds,
                                    e,
                                    more_views,
                                    events::effect_views(effects@),
                                ));
                            }
                            return (Err(e), effects);
                        },
                    }
                },
                None => {
                    deferred.push((edges[i].0.clone(), edges[i].1.clone()));
                    assert(edge_texts(deferred@) =~= edge_texts(deferred_before).push(
                        (edges@[i as int].0@, edges@[i as int].1@),
                    ));
                },
            }
            proof {
                let b = Settling {
                    state: self.state@,
                    ready: ready@,
                    deferred: edge_texts(deferred@),
                    effects: events::effect_views(effects@),
                };
                assert(settles_next(
                    a,
                    b,
                    wf,
                    origin,
                    retention,
                    edges@[i as int],
                    verdicts@[i as int],
                ));
                let longer = trace.push(b);
                assert forall|j: int| 0 <= j < longer.len() - 1 implies settles_next(
                    #[trigger] longer[j],
                    longer[j + 1],
                    wf,
                    origin,
                    retention,
                    edges@[j],
                    verdicts@[j],
                ) by {
                    if j < i {
                        assert(trace[j] == longer[j]);
                        assert(trace[j + 1] == longer[j + 1]);
                    }
                }
                trace = longer;
            }
            i += 1;
        }
        (Ok((ready, deferred)), effects)
    }

    /// Has an evaluator decide the conditional edges that leave `task_id`, and deals with
    /// them. Returns the tasks that can run now, and the edges that it could not decide.
    pub fn process_conditional_edges<E: ConditionEvaluator>(
        &mut self,
        evaluator: &E,
        workflow_id: &WorkflowId,
        task_id: &TaskId,
        edges: &Vec<(TaskId, String)>,
    ) -> (r: (
        Result<(Vec<TaskDefinition>, Vec<(TaskId, String)>), ActantError>,
        Vec<Effect>,
    ))
        requires
            old(self).wf(),
        ensures
            final(self).wf(),
            final(self).same_settings(old(self)),
            exists|verdicts: Seq<Option<bool>>|
                {
                    &&& #[trigger] may_say_of(evaluator, workflow_id, task_id, edges@, verdicts)
                    &&& conditions_settled(
                        old(self).state@,
                        final(self).state@,
                        workflow_id@,
                        old(self).origin(),
                        old(self).completed_retention_count,
                        edges@,
                        verdicts,
                        r.0,
                        events::effect_views(r.1@),
                    )
                },
    {
        let verdicts = evaluate_edges(evaluator, workflow_id, task_id, edges);
        self.settle_conditions(workflow_id, edges, &verdicts)
    }

    /// Completes a task and has an evaluator decide the conditional edges that leave it.
    /// Returns the tasks that can run now, the edges that it could not decide, and whether the
    /// completion has ended the workflow. An edge that it could not decide holds nothing else
    /// back.
    pub fn complete_and_settle<E: ConditionEvaluator>(
        &mut self,
        evaluator: &E,
        workflow_id: &WorkflowId,
        task_id: &TaskId,
        result: Vec<u8>,
    ) -> (r: (
        Result<(Vec<TaskDefinition>, Vec<(TaskId, String)>, bool), ActantError>,
        Vec<Effect>,
    ))
        requires
            old(self).wf(),
        ensures
            final(self).wf(),
            final(self).same_settings(old(self)),
            ({
                let before = old(self).state@;
                let after = final(self).state@;
                if !before.slots.contains_key(workflow_id@) {
                    drive::refused_unknown(before, after, workflow_id@, r.0, r.1@)
                } else {
                    task_done_and_settled(
                        evaluator,
                        before,
                        after,
                        workflow_id,
                        old(self).origin(),
                        task_id,
                        result,
                        old(self).completed_retention_count,
                        r.0,
                        events::effect_views(r.1@),
                    )
                }
            }),
    {
        let (done, effects) = self.on_task_completed(workflow_id, task_id, result);
        let ghost mid = self.state@;
        let ghost done_view = done;
        let ghost head = effects@;
        match done {
            Ok(info) => {
                let (mut ready, edges, terminal) = info;
                let (settled, mut more) = self.process_conditional_edges(
                    evaluator,
                    workflow_id,
                    task_id,
                    &edges,
                );
                let ghost tail = more@;
                let ghost settled_view = settled;
                let ghost first = ready@;
                let mut effects = effects;
                effects.append(&mut more);
                assert(events::effect_views(effects@) =~= events::effect_views(head)
                    + events::effect_views(tail));
                let r = match settled {
                    Ok((mut tasks, deferred)) => {
                        ready.append(&mut tasks);
                        assert(ready@ =~= first + settled_view->Ok_0.0@);
                        Ok((ready, deferred, terminal))
                    },
                    Err(e) => Err(e),
                };
                proof {
                    let verdicts = choose|verdicts: Seq<Option<bool>>|
                        {
                            &&& #[trigger] may_say_of(
                                evaluator,
                                workflow_id,
                                task_id,
                                edges@,
                                verdicts,
                            )
                            &&& conditions_settled(
                                mid,
                                self.state@,
                                workflow_id@,
                                old(self).origin(),
                                old(self).completed_retention_count,
                                edges@,
                                verdicts,
                                settled_view,
                                events::effect_views(tail),
                            )
                        };
                    assert(edges_settled(
                        mid,
                        self.state@,
                        workflow_id@,
                        old(self).origin(),
                        old(self).completed_retention_count,
                        done_view->Ok_0,
                        verdicts,
                        settled_view,
                        r,
                        events::effect_views(tail),
                    ));
                }
                (r, effects)
            },
            Err(e) => (Err(e), effects),
        }
    }
}

/// What reporting the task `id` of a known workflow complete returns, leaves behind and
/// has done.
pub open spec fn task_done(
    before: StateView,
    after: StateView,
    wf: Seq<char>,
    origin: Option<Seq<char>>,
    id: Seq<char>,
    result: Vec<u8>,
    retention: usize,
    r: Result<(Vec<TaskDefinition>, Vec<(TaskId, String)>, bool), ActantError>,
    effects: Seq<EffectView>,
) -> bool {
    exists|c: Result<CompletionInfo, ActantError>|
        {
            &&& #[trigger] drive::completed(
                before,
                after,
                wf,
                id,
                result,
                None,
                retention,
                c,
                effects,
            )
            &&& match c {
                Err(e) => r == Err::<
                    (Vec<TaskDefinition>, Vec<(TaskId, String)>, bool),
                    ActantError,
                >(e),
                Ok(info) => if info.workflow_terminal {
                    r matches Ok(t) && t.0@.len() == 0 && t.1@.len() == 0 && t.2
                } else {
                    exists|built: Result<Vec<TaskDefinition>, ActantError>|
                        {
                            &&& #[trigger] slot::tasks_built(
                                after.slots[wf],
                                wf,
                                origin,
                                common::task_texts(info.ready_successors@),
                                built,
                            )
                            &&& match built {
                                Ok(tasks) => r == Ok::<
                                    (Vec<TaskDefinition>, Vec<(TaskId, String)>, bool),
                                    ActantError,
                                >((tasks, info.conditional_edges, false)),
                                Err(e) => r == Err::<
                                    (Vec<TaskDefinition>, Vec<(TaskId, String)>, bool),
                                    ActantError,
                                >(e),
                            }
                        }
                },
            }
        }
}

/// How the conditional edges that a completion left are dealt with, and what is returned
/// then: the tasks that can run are those of the completion and those of the edges, in order.
pub open spec fn edges_settled(
    mid: StateView,
    after: StateView,
    wf: Seq<char>,
    origin: Option<Seq<char>>,
    retention: usize,
    done: (Vec<TaskDefinition>, Vec<(TaskId, String)>, bool),
    verdicts: Seq<Option<bool>>,
    settled: Result<(Vec<TaskDefinition>, Vec<(TaskId, String)>), ActantError>,
    r: Result<(Vec<TaskDefinition>, Vec<(TaskId, String)>, bool), ActantError>,
    more: Seq<EffectView>,
) -> bool {
    &&& conditions_settled(
        mid,
        after,
        wf,
        origin,
        retention,
        done.1@,
        verdicts,
        settled,
        more,
    )
    &&& match settled {
        Ok(s) => r matches Ok(t) && t.0@ == done.0@ + s.0@ && t.1 == s.1 && t.2 == done.2,
        Err(e) => r == Err::<(Vec<TaskDefinition>, Vec<(TaskId, String)>, bool), ActantError>(e),
    }
}

/// What reporting a task of a known workflow complete returns, leaves behind and has done,
/// where an evaluator decides the conditional edges: first the completion, then the edges that
/// it left, as the evaluator says.
pub open spec fn task_done_and_settled<E: ConditionEvaluator>(
    evaluator: &E,
    before: StateView,
    after: StateView,
    workflow_id: &WorkflowId,
    origin: Option<Seq<char>>,
    task_id: &TaskId,
    result: Vec<u8>,
    retention: usize,
    r: Result<(Vec<TaskDefinition>, Vec<(TaskId, String)>, bool), ActantError>,
    effects: Seq<EffectView>,
) -> bool {
    exists|
        mid: StateView,
        done: Result<(Vec<TaskDefinition>, Vec<(TaskId, String)>, bool), ActantError>,
        head: Seq<EffectView>,
    |
        {
            &&& #[trigger] task_done(
                before,
                mid,
                workflow_id@,
                origin,
                task_id@,
                result,
                retention,
                done,
                head,
            )
            &&& match done {
                Err(e) => after == mid && effects == head && r == done,
                Ok(t) => exists|
                    verdicts: Seq<Option<bool>>,
                    settled: Result<(Vec<TaskDefinition>, Vec<(TaskId, String)>), ActantError>,
                    more: Seq<EffectView>,
                |
                    {
                        &&& may_say_of(evaluator, workflow_id, task_id, t.1@, verdicts)
                        &&& #[trigger] edges_settled(
                            mid,
                            after,
                            workflow_id@,
                            origin,
                            retention,
                            t,
                            verdicts,
                            settled,
                            r,
                            more,
                        )
                        &&& effects == head + more
                    },
            }
        }
}

} // verus!
