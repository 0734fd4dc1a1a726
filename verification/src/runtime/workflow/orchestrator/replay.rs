//! Replaying the history of a workflow on top of its stored state.
use vstd::prelude::*;

use crate::common;
use crate::common::{reversed, TaskId, WorkflowId};
use crate::runtime::workflow::dag;
use crate::runtime::workflow::dag::DagView;
use crate::runtime::workflow::execution;
use crate::runtime::workflow::execution::ExecutionView;
use crate::runtime::workflow::execution_laws;
use crate::runtime::workflow::graph;
use crate::runtime::workflow::orchestrator::drive;
use crate::runtime::workflow::orchestrator::engine;
use crate::runtime::workflow::orchestrator::engine::Orchestrator;
use crate::runtime::workflow::orchestrator::events;
use crate::runtime::workflow::orchestrator::events::{
    push_effect, Effect, EffectView, WorkflowEventPayload,
};
use crate::runtime::workflow::orchestrator::progress;
use crate::runtime::workflow::orchestrator::progress::targets_task;
use crate::runtime::workflow::orchestrator::slot;
use crate::runtime::workflow::orchestrator::slot::{SlotState, SlotView, WorkflowSlot};
use crate::runtime::workflow::orchestrator::state;
use crate::runtime::workflow::orchestrator::state::StateView;
use crate::runtime::workflow::orchestrator::waitpoint;
use crate::runtime::workflow::phase::{FailureScope, Phase, Terminal};
use crate::runtime::workflow::task;
use crate::runtime::workflow::wait::{WaitCondition, WaitView};

verus! {

/// Each successor in `succs` that has a count waits for one task less, except the targets
/// of conditional edges.
pub open spec fn lowered(
    pending: Map<Seq<char>, usize>,
    succs: Seq<Seq<char>>,
    cond: Seq<(TaskId, String)>,
) -> Map<Seq<char>, usize>
    decreases succs.len(),
{
    if succs.len() == 0 {
        pending
    } else {
        let p = lowered(pending, succs.drop_last(), cond);
        let k = succs.last();
        if progress::is_conditional(cond, k) || !p.contains_key(k) || p[k] == 0 {
            p
        } else {
            p.insert(k, (p[k] - 1) as usize)
        }
    }
}

/// `s` with `id` completed by `result`.
pub open spec fn completion_replayed(s: SlotView, id: Seq<char>, result: Vec<u8>) -> SlotView {
    SlotView {
        execution: execution::task_completed(s.execution, id, result, None),
        pending: lowered(
            s.pending,
            graph::targets(slot::pairs(s.dag), id),
            dag::conditional_from(s.dag.edges, id),
        ),
        ..s
    }
}

/// `s` after an event that changes the graph or the execution; `None` where the event
/// changes nothing.
pub open spec fn slot_replayed(s: SlotView, e: WorkflowEventPayload, now: u64) -> Option<SlotView> {
    if s.state != SlotState::Ready {
        None
    } else {
        match e {
            WorkflowEventPayload::TaskCompleted { task_id, result, .. } => if execution::transition_allowed(
                s.execution,
                task_id@,
            ) {
                Some(completion_replayed(s, task_id@, result))
            } else {
                None
            },
            WorkflowEventPayload::TaskFailed { task_id, error, .. } => if execution::transition_allowed(
                s.execution,
                task_id@,
            ) {
                Some(
                    SlotView {
                        execution: execution::task_failed(
                            s.execution,
                            task_id@,
                            error,
                            FailureScope::WorkflowLevel,
                            None,
                        ),
                        ..s
                    },
                )
            } else {
                None
            },
            WorkflowEventPayload::TaskCancelled { task_id, .. } => if execution::cancellable(
                s.execution,
                task_id@,
            ) {
                Some(
                    SlotView {
                        execution: execution::task_cancelled(s.execution, task_id@),
                        ..s
                    },
                )
            } else {
                None
            },
            WorkflowEventPayload::NodeAdded { node, .. } => if !s.dag.nodes.contains_key(
                node.task_id@,
            ) {
                Some(
                    SlotView {
                        dag: DagView {
                            nodes: s.dag.nodes.insert(node.task_id@, node),
                            order: s.dag.order.push(node.task_id@),
                            ..s.dag
                        },
                        pending: if s.pending.contains_key(node.task_id@) {
                            s.pending
                        } else {
                            s.pending.insert(node.task_id@, 0)
                        },
                        ..s
                    },
                )
            } else {
                None
            },
            WorkflowEventPayload::Started { .. } => if !s.execution.state.ended() {
                Some(SlotView { execution: execution::started(s.execution, now), ..s })
            } else {
                None
            },
            _ => None,
        }
    }
}

/// `v` with the wait point woken by `payload`, where it is there and still waits.
pub open spec fn wait_woken(
    v: StateView,
    wf: Seq<char>,
    key: Seq<char>,
    payload: Seq<u8>,
) -> StateView {
    let waits = waitpoint::waits_of(v, wf);
    if waits.contains_key(key) && waits[key].woken is None {
        state::with_dirty(
            waitpoint::with_wait(v, wf, key, WaitView { woken: Some(payload), ..waits[key] }),
            wf,
        )
    } else {
        v
    }
}

/// `v` after an event of a workflow's history: what the event says has happened, unless
/// it is on record already. A workflow that changes is to be stored.
pub open spec fn replayed(v: StateView, e: WorkflowEventPayload, now: u64) -> StateView {
    let wf = events::event_workflow(e)@;
    match e {
        WorkflowEventPayload::WaitPointRegistered {
            wait_key,
            condition,
            ..
        } => if waitpoint::waits_of(v, wf).contains_key(wait_key@) {
            v
        } else {
            state::with_dirty(waitpoint::wait_registered(v, wf, wait_key@, condition), wf)
        },
        WorkflowEventPayload::SignalReceived {
            wait_key,
            payload,
            ..
        } => if waitpoint::waits_of(v, wf).contains_key(wait_key@) && !(waitpoint::waits_of(
            v,
            wf,
        )[wait_key@].condition is Timer) {
            wait_woken(v, wf, wait_key@, payload@)
        } else if waitpoint::signals_of(v, wf).contains_key(wait_key@) {
            v
        } else {
            state::with_dirty(waitpoint::with_signal(v, wf, wait_key@, payload@), wf)
        },
        WorkflowEventPayload::TimerFired { wait_key, .. } => wait_woken(
            v,
            wf,
            wait_key@,
            Seq::empty(),
        ),
        _ => if !v.slots.contains_key(wf) {
            v
        } else {
            match slot_replayed(v.slots[wf], e, now) {
                Some(s) => drive::moved(v, wf, s),
                None => v,
            }
        },
    }
}

/// The workflow ends between `before` and `after`.
pub open spec fn ends_between(before: StateView, after: StateView, wf: Seq<char>) -> bool {
    &&& before.slots.contains_key(wf)
    &&& after.slots.contains_key(wf)
    &&& !before.slots[wf].execution.state.ended()
    &&& after.slots[wf].execution.state.ended()
}

/// What has to be stored at once for a workflow that has ended as `v`: the execution, and
/// where it completed with results, those too.
pub open spec fn stores_end(effects: Seq<EffectView>, v: ExecutionView, wf: Seq<char>) -> bool {
    &&& effects.len() == 1
    &&& if v.state == Phase::Completed && engine::any_results(v) {
        &&& effects[0] matches EffectView::PersistResults(w, results)
        &&& w == wf
        &&& engine::sorted_results(v, results)
    } else {
        effects[0] == EffectView::PersistExecution(wf)
    }
}

/// What has to be done after an event has been replayed.
pub open spec fn replay_stores(
    before: StateView,
    after: StateView,
    wf: Seq<char>,
    effects: Seq<EffectView>,
) -> bool {
    if ends_between(before, after, wf) {
        stores_end(effects, after.slots[wf].execution, wf)
    } else {
        effects.len() == 0
    }
}

impl WorkflowSlot {
    /// Takes the completed task `task_id` off the counts of those successors that have one.
    pub fn lower_successors(&mut self, task_id: &TaskId)
        requires
            old(self).wf(),
        ensures
            final(self).wf(),
            final(self)@ == (SlotView {
                pending: lowered(
                    old(self)@.pending,
                    graph::targets(slot::pairs(old(self)@.dag), task_id@),
                    dag::conditional_from(old(self)@.dag.edges, task_id@),
                ),
                ..old(self)@
            }),
    {
        let ghost before = self@;
        let successors = self.dag.successor_ids(task_id);
        let conditional = self.dag.conditional_edges_from(task_id);
        let ghost succs = common::task_texts(successors@);
        let ghost cond = conditional@;
        assert(slot::pairs(before.dag) == self.dag.pairs());
        let mut i: usize = 0;
        assert(succs.take(0).len() == 0);
        while i < successors.len()
            invariant
                i <= successors@.len(),
                old(self).wf(),
                before == old(self)@,
                succs == common::task_texts(successors@),
                cond == conditional@,
                self.dag == old(self).dag,
                self.execution == old(self).execution,
                self.state == old(self).state,
                self.pending@ == lowered(before.pending, succs.take(i as int), cond),
            decreases successors@.len() - i,
        {
            let succ = &successors[i];
            let ghost p = lowered(before.pending, succs.take(i as int), cond);
            proof {
                assert(succs.take(i + 1).drop_last() =~= succs.take(i as int));
                assert(succs.take(i + 1).last() == succ@);
            }
            if !targets_task(&conditional, succ) {
                if let Some(count) = self.pending.get_mut(&succ.0) {
                    *count = count.saturating_sub(1);
                }
                assert(p.contains_key(succ@) && p[succ@] == 0 ==> self.pending@ =~= p);
            }
            i += 1;
        }
        assert(succs.take(i as int) =~= succs);
    }

    /// Applies an event to the graph and the execution. Returns whether it changed them.
    pub fn apply_replayed(&mut self, e: WorkflowEventPayload, now: u64) -> (changed: bool)
        requires
            old(self).wf(),
        ensures
            final(self).wf(),
            match slot_replayed(old(self)@, e, now) {
                Some(s) => changed && final(self)@ == s,
                None => !changed && final(self)@ == old(self)@,
            },
    {
        if self.state == SlotState::Loading {
            return false;
        }
        let ghost before = self@;
        match e {
            WorkflowEventPayload::TaskCompleted { task_id, result, .. } => {
                if !self.execution.can_transition_task(&task_id) {
                    return false;
                }
                proof {
                    execution_laws::lemma_counted_room(self.execution@, task_id@);
                    execution_laws::lemma_completed_counted(
                        self.execution@,
                        task_id@,
                        result,
                        None,
                    );
                }
                self.execution.mark_task_completed(&task_id, result, None);
                self.lower_successors(&task_id);
                true
            },
            WorkflowEventPayload::TaskFailed { task_id, error, .. } => {
                let r = self.fail_task(&task_id, error, FailureScope::WorkflowLevel);
                r.0
            },
            WorkflowEventPayload::TaskCancelled { task_id, .. } => {
                let r = self.cancel_task(&task_id);
                r.0
            },
            WorkflowEventPayload::NodeAdded { node, .. } => {
                let task_id = node.task_id.clone();
                if self.dag.get_node(&task_id).is_some() {
                    return false;
                }
                let _ = self.dag.add_node(node);
                if !self.pending.contains_key(&task_id.0) {
                    self.pending.insert(task_id.0, 0);
                }
                true
            },
            WorkflowEventPayload::Started { .. } => {
                if self.execution.is_terminal() {
                    return false;
                }
                self.execution.mark_running_at(now);
                true
            },
            _ => false,
        }
    }
}

impl Orchestrator {
    /// What has to be stored at once for a workflow that has ended.
    fn persist_terminal_after_replay(&self, workflow_id: &WorkflowId) -> (effects: Vec<Effect>)
        requires
            self.wf(),
            self.state@.slots.contains_key(workflow_id@),
        ensures
            stores_end(
                events::effect_views(effects@),
                self.state@.slots[workflow_id@].execution,
                workflow_id@,
            ),
    {
        let ghost v = self.state@.slots[workflow_id@].execution;
        let mut effects: Vec<Effect> = Vec::new();
        if let Some(slot) = self.state.slot(workflow_id) {
            let execution = &slot.execution;
            let results = execution.collected_results();
            let ghost ids = choose|ids: Seq<Seq<char>>|
                execution::results_listing(v.tasks, ids, results@);
            if execution.state == Phase::Completed && results.len() > 0 {
                proof {
                    assert(v.tasks.contains_key(ids[0]));
                    assert(engine::sorted_results(v, task::contents(results@)));
                }
                push_effect(&mut effects, Effect::PersistResults(workflow_id.clone(), results));
            } else {
                assert(v.state != Phase::Completed || !engine::any_results(v));
                push_effect(&mut effects, Effect::PersistExecution(workflow_id.clone()));
            }
        }
        effects
    }

    /// Applies one event of a workflow's history at time `now`. An event that is on record
    /// changes nothing.
    pub fn apply_replayed_event(&mut self, payload: WorkflowEventPayload, now: u64) -> (effects:
        Vec<Effect>)
        requires
            old(self).wf(),
        ensures
            final(self).wf(),
            final(self).same_settings(old(self)),
            final(self).state@ == replayed(old(self).state@, payload, now),
            replay_stores(
                old(self).state@,
                final(self).state@,
                events::event_workflow(payload)@,
                events::effect_views(effects@),
            ),
    {
        let ghost before = self.state@;
        match payload {
            WorkflowEventPayload::WaitPointRegistered { workflow_id, wait_key, condition } => {
                if self.state.wait_point(&workflow_id, &wait_key).is_none() {
                    self.state.register_wait(&workflow_id, &wait_key, condition);
                    self.state.mark_dirty(&workflow_id);
                }
                Vec::new()
            },
            WorkflowEventPayload::SignalReceived { workflow_id, wait_key, payload } => {
                let addressed = match self.state.wait_point(&workflow_id, &wait_key) {
                    Some(w) => match w.condition {
                        WaitCondition::Timer { .. } => false,
                        _ => true,
                    },
                    None => false,
                };
                if addressed {
                    if self.state.wake_wait(&workflow_id, &wait_key, payload) {
                        self.state.mark_dirty(&workflow_id);
                    }
                } else if !self.state.has_signal(&workflow_id, &wait_key) {
                    self.state.buffer(&workflow_id, &wait_key, payload);
                    self.state.mark_dirty(&workflow_id);
                }
                Vec::new()
            },
            WorkflowEventPayload::TimerFired { workflow_id, wait_key } => {
                let empty: Vec<u8> = Vec::new();
                assert(empty@ =~= Seq::empty());
                if self.state.wake_wait(&workflow_id, &wait_key, empty) {
                    self.state.mark_dirty(&workflow_id);
                }
                Vec::new()
            },
            _ => {
                let workflow_id = payload.workflow_id().clone();
                let mut open = false;
                let mut changed = false;
                if let Some(slot) = self.state.slot_mut(&workflow_id) {
                    open = !slot.execution.is_terminal();
                    changed = slot.apply_replayed(payload, now);
                    assert(!changed ==> state::with_slot(
                        before,
                        workflow_id@,
                        before.slots[workflow_id@],
                    ) =~= before);
                }
                if !changed {
                    return Vec::new();
                }
                self.state.mark_dirty(&workflow_id);
                let ended = match self.state.slot(&workflow_id) {
                    Some(slot) => slot.execution.is_terminal(),
                    None => false,
                };
                if open && ended {
                    self.persist_terminal_after_replay(&workflow_id)
                } else {
                    Vec::new()
                }
            },
        }
    }
}

/// `v` after a run of events.
pub open spec fn all_replayed(v: StateView, list: Seq<WorkflowEventPayload>, now: u64) -> StateView
    decreases list.len(),
{
    if list.len() == 0 {
        v
    } else {
        replayed(all_replayed(v, list.drop_last(), now), list.last(), now)
    }
}

/// `effects` are what has to be done after a run of events: the parts for each event, in
/// order.
pub open spec fn all_replay_stores(
    v: StateView,
    list: Seq<WorkflowEventPayload>,
    now: u64,
    effects: Seq<EffectView>,
) -> bool
    decreases list.len(),
{
    if list.len() == 0 {
        effects.len() == 0
    } else {
        exists|split: int| #[trigger]
            splits_at(effects, split) && all_replay_stores(
                v,
                list.drop_last(),
                now,
                effects.take(split),
            ) && replay_stores(
                all_replayed(v, list.drop_last(), now),
                all_replayed(v, list, now),
                events::event_workflow(list.last())@,
                effects.skip(split),
            )
    }
}

/// `split` is a place within `effects`.
pub open spec fn splits_at(effects: Seq<EffectView>, split: int) -> bool {
    0 <= split <= effects.len()
}

impl Orchestrator {
    /// Applies a run of events at time `now`, in order.
    pub fn replay_events(&mut self, list: Vec<WorkflowEventPayload>, now: u64) -> (effects: Vec<
        Effect,
    >)
        requires
            old(self).wf(),
        ensures
            final(self).wf(),
            final(self).same_settings(old(self)),
            final(self).state@ == all_replayed(old(self).state@, list@, now),
            all_replay_stores(old(self).state@, list@, now, events::effect_views(effects@)),
    {
        let ghost before = self.state@;
        let ghost all = list@;
        let mut queue = reversed(list);
        let mut effects: Vec<Effect> = Vec::new();
        let ghost mut done: int = 0;
        assert(all.take(0) =~= Seq::empty());
        assert(all.skip(0) =~= all);
        while queue.len() > 0
            invariant
                0 <= done <= all.len(),
                queue@.reverse() == all.skip(done),
                self.wf(),
                self.same_settings(old(self)),
                self.state@ == all_replayed(before, all.take(done), now),
                all_replay_stores(
                    before,
                    all.take(done),
                    now,
                    events::effect_views(effects@),
                ),
            decreases queue@.len(),
        {
            let ghost q = queue@;
            let ghost so_far = effects@;
            if let Some(e) = queue.pop() {
                proof {
                    common::lemma_next(all, done, q);
                    assert(queue@ =~= q.drop_last());
                }
                let mut more = self.apply_replayed_event(e, now);
                let ghost added = more@;
                effects.append(&mut more);
                proof {
                    let views = events::effect_views(effects@);
                    let split = events::effect_views(so_far).len() as int;
                    assert(views.take(split) =~= events::effect_views(so_far));
                    assert(views.skip(split) =~= events::effect_views(added));
                    assert(splits_at(views, split));
                    done = done + 1;
                }
            }
        }
        assert(all.take(done) =~= all);
        effects
    }
}

/// Replaying an event a second time, at whatever time, changes nothing.
pub proof fn law_replay_idempotent(v: StateView, e: WorkflowEventPayload, now: u64, later: u64)
    ensures
        replayed(replayed(v, e, now), e, later) == replayed(v, e, now),
{
    let wf = events::event_workflow(e)@;
    let w = replayed(v, e, now);
    let x = replayed(w, e, later);
    assert(x.slots =~= w.slots);
    assert(x.waits =~= w.waits);
    assert(x.signals =~= w.signals);
    assert(x.dirty =~= w.dirty);
    assert(x =~= w);
}

/// Replaying an event touches nothing of any other workflow.
pub proof fn law_replay_keeps_others(
    v: StateView,
    e: WorkflowEventPayload,
    now: u64,
    other: Seq<char>,
)
    requires
        other != events::event_workflow(e)@,
    ensures
        ({
            let w = replayed(v, e, now);
            &&& w.slots.contains_key(other) == v.slots.contains_key(other)
            &&& w.slots[other] == v.slots[other]
            &&& w.waits.contains_key(other) == v.waits.contains_key(other)
            &&& w.waits[other] == v.waits[other]
            &&& w.signals.contains_key(other) == v.signals.contains_key(other)
            &&& w.signals[other] == v.signals[other]
            &&& w.dirty.contains(other) == v.dirty.contains(other)
            &&& w.seqs == v.seqs
        }),
{
}

/// Where every successor has a count, replaying lowers the counts as completing did.
proof fn lemma_lowered_as_released(
    pending: Map<Seq<char>, usize>,
    succs: Seq<Seq<char>>,
    cond: Seq<(TaskId, String)>,
)
    requires
        progress::released(pending, succs, cond).missing is None,
    ensures
        lowered(pending, succs, cond) == progress::released(pending, succs, cond).pending,
    decreases succs.len(),
{
    if succs.len() > 0 {
        lemma_lowered_as_released(pending, succs.drop_last(), cond);
    }
}

/// The history is enough to recover from: replaying the event of a completion on the
/// state before it gives the execution that the completion left, and the pending counts
/// too as long as the workflow goes on.
pub proof fn law_replay_recovers_completion(
    before: SlotView,
    after: SlotView,
    workflow_id: WorkflowId,
    task_id: TaskId,
    result: Vec<u8>,
    attempt: Option<u32>,
    p: progress::ReadyResult,
    now: u64,
)
    requires
        progress::completion_outcome(
            before,
            after,
            workflow_id@,
            task_id@,
            result,
            attempt,
            Ok(progress::Completion::Progress(p)),
        ) || progress::completion_outcome(
            before,
            after,
            workflow_id@,
            task_id@,
            result,
            attempt,
            Ok(progress::Completion::Ended),
        ),
    ensures
        ({
            let e = WorkflowEventPayload::TaskCompleted { workflow_id, task_id, result };
            &&& slot_replayed(before, e, now) matches Some(s)
            &&& s.execution == after.execution
            &&& !after.execution.state.ended() ==> s == after
        }),
{
    let succs = graph::targets(slot::pairs(before.dag), task_id@);
    let cond = dag::conditional_from(before.dag.edges, task_id@);
    if progress::released(before.pending, succs, cond).missing is None {
        lemma_lowered_as_released(before.pending, succs, cond);
    }
    let e = WorkflowEventPayload::TaskCompleted { workflow_id, task_id, result };
    if !after.execution.state.ended() {
        assert(slot_replayed(before, e, now)->0 =~= after);
    }
}

} // verus!
